use mapgen::builder::{random_builder, BuilderChain, BuilderStage, XStart, YStart};
use mapgen::context::{BuildContext, BuildError};
use mapgen::grid::{Grid, TileType};
use mapgen::prefab_builder::PrefabBuilder;
use mapgen::prefab_levels::PrefabLevel;
use mapgen::prefab_sections::{HorizontalPlacement, PrefabSection, VerticalPlacement};
use mapgen::rng::Rng;

fn run_chain(chain: &BuilderChain, seed: u64) -> BuildContext {
    let mut rng = Rng::seeded(seed);
    chain.run(&mut rng).expect("chain should complete")
}

/// Breadth-first distances over 8-directional moves, mirroring the
/// analyzer's movement rule, computed independently of the library.
fn flood_distances(map: &Grid, start: usize) -> Vec<Option<u32>> {
    let w = map.width as i64;
    let h = map.height as i64;
    let n = map.tiles.len();
    let mut dist: Vec<Option<u32>> = vec![None; n];
    let mut queue = std::collections::VecDeque::new();
    dist[start] = Some(0);
    queue.push_back(start);
    while let Some(u) = queue.pop_front() {
        let ux = (u as i64) % w;
        let uy = (u as i64) / w;
        for dy in -1..=1i64 {
            for dx in -1..=1i64 {
                if dx == 0 && dy == 0 {
                    continue;
                }
                let nx = ux + dx;
                let ny = uy + dy;
                if nx < 1 || nx > w - 1 || ny < 1 || ny > h - 1 {
                    continue;
                }
                let v = (ny * w + nx) as usize;
                if map.tiles[v] != TileType::Wall && dist[v].is_none() {
                    dist[v] = Some(dist[u].unwrap() + 1);
                    queue.push_back(v);
                }
            }
        }
    }
    dist
}

#[test]
fn identical_seeds_reproduce_identical_levels() {
    let mut chain1 = BuilderChain::new(1);
    chain1.set_initial(BuilderStage::CellularAutomata);
    let mut chain2 = BuilderChain::new(1);
    chain2.set_initial(BuilderStage::CellularAutomata);
    let a = run_chain(&chain1, 424242);
    let b = run_chain(&chain2, 424242);
    assert_eq!(a.map.tiles, b.map.tiles);
    assert_eq!(a.starting_position, b.starting_position);
    assert_eq!(a.spawn_list, b.spawn_list);
    assert_eq!(a.spawn_regions, b.spawn_regions);
}

#[test]
fn different_seeds_vary_the_level() {
    let mut chain = BuilderChain::new(1);
    chain.set_initial(BuilderStage::CellularAutomata);
    let a = run_chain(&chain, 1);
    let b = run_chain(&chain, 2);
    assert_ne!(a.map.tiles, b.map.tiles);
}

#[test]
fn every_floor_tile_is_reachable_from_the_start() {
    let mut chain = BuilderChain::new(1);
    chain.set_initial(BuilderStage::CellularAutomata);
    let ctx = run_chain(&chain, 99);
    let map = ctx.get_map();
    let pos = ctx.get_starting_position().expect("start claimed");
    let start = map.xy_idx(pos.x, pos.y);
    let dist = flood_distances(&map, start);
    for (i, tile) in map.tiles.iter().enumerate() {
        if *tile == TileType::Floor {
            assert!(dist[i].is_some(), "floor tile {} unreachable", i);
        }
    }
}

#[test]
fn the_exit_is_unique_and_farthest() {
    let mut chain = BuilderChain::new(1);
    chain.set_initial(BuilderStage::CellularAutomata);
    let ctx = run_chain(&chain, 7);
    let map = ctx.get_map();
    let pos = ctx.get_starting_position().expect("start claimed");
    let start = map.xy_idx(pos.x, pos.y);
    let dist = flood_distances(&map, start);
    let exits: Vec<usize> = map
        .tiles
        .iter()
        .enumerate()
        .filter(|(_, t)| **t == TileType::DownStairs)
        .map(|(i, _)| i)
        .collect();
    assert_eq!(exits.len(), 1, "exactly one exit tile");
    let exit_dist = dist[exits[0]].expect("exit reachable");
    for (i, tile) in map.tiles.iter().enumerate() {
        if *tile == TileType::Floor {
            if let Some(d) = dist[i] {
                assert!(d <= exit_dist, "tile {} farther than the exit", i);
            }
        }
    }
}

#[test]
fn template_overlay_scenario() {
    // A 3-by-3 fragment of walls around a claimed center: walls on every
    // border tile, floor with the starting position at the center, and no
    // spawn requests.
    let level = PrefabLevel::new("###\n#@#\n###", 3, 3);
    let mut chain = BuilderChain::with_dimensions(3, 3, 1);
    chain.set_initial(BuilderStage::Prefab(PrefabBuilder::constant(level)));
    let ctx = run_chain(&chain, 5);
    let map = ctx.get_map();
    for y in 0..3 {
        for x in 0..3 {
            let idx = map.xy_idx(x, y);
            if x == 1 && y == 1 {
                assert_eq!(map.tiles[idx], TileType::Floor);
            } else {
                assert_eq!(map.tiles[idx], TileType::Wall);
            }
        }
    }
    let pos = ctx.get_starting_position().expect("the template claims the start");
    assert_eq!((pos.x, pos.y), (1, 1));
    assert!(ctx.get_spawn_list().is_empty());
}

#[test]
fn constant_rolls_collapse_a_small_automata_interior() {
    // With every roll resolving to 56, a 3-by-3 interior fills all floor,
    // but the sweep rule (a tile with no wall neighbors becomes a wall)
    // collapses it to all wall, so the carving stage reports the
    // degenerate layout instead of a level.
    let mut chain = BuilderChain::with_dimensions(5, 5, 1);
    chain.set_initial(BuilderStage::CellularAutomata);
    let mut rng = Rng::fixed(56);
    let outcome = chain.run(&mut rng);
    assert!(matches!(outcome, Err(BuildError::NoStartingPoint)));
}

#[test]
fn open_interior_scenario() {
    // A 3-by-3 open interior: the starting position resolves to the
    // center, the exit lands on the first interior corner (the nearest of
    // the tiles at maximum distance in raster order), and the spawn
    // region list holds exactly one region covering the remaining floor.
    let level = PrefabLevel::new(
        "#####\n\
         #   #\n\
         #   #\n\
         #   #\n\
         #####",
        5,
        5,
    );
    let mut chain = BuilderChain::with_dimensions(5, 5, 1);
    chain.set_initial(BuilderStage::Prefab(PrefabBuilder::constant(level)));
    chain.add_stage(BuilderStage::VoronoiSpawning);
    let mut rng = Rng::fixed(56);
    let ctx = chain.run(&mut rng).expect("open interior builds");
    let map = ctx.get_map();
    let pos = ctx.get_starting_position().expect("center start");
    assert_eq!((pos.x, pos.y), (2, 2));
    let corner = map.xy_idx(1, 1);
    assert_eq!(map.tiles[corner], TileType::DownStairs);
    let floors: Vec<usize> = map
        .tiles
        .iter()
        .enumerate()
        .filter(|(_, t)| **t == TileType::Floor)
        .map(|(i, _)| i)
        .collect();
    assert_eq!(floors.len(), 8);
    let regions = ctx.get_spawn_regions();
    assert_eq!(regions.len(), 1);
    assert_eq!(regions[0], floors);
}

#[test]
fn sectional_overlay_preserves_tiles_outside_the_rectangle() {
    let base = || {
        let mut chain = BuilderChain::with_dimensions(12, 7, 1);
        chain.set_initial(BuilderStage::Prefab(PrefabBuilder::constant(
            mapgen::prefab_levels::demo_arena(),
        )));
        chain
    };
    let plain = run_chain(&base(), 3);
    let section = PrefabSection::new(
        "###\n# #\n###",
        3,
        3,
        (HorizontalPlacement::Left, VerticalPlacement::Top),
    );
    let mut overlaid_chain = base();
    overlaid_chain.add_stage(BuilderStage::Prefab(PrefabBuilder::sectional(section)));
    let overlaid = run_chain(&overlaid_chain, 3);
    let w = plain.map.width;
    for y in 0..plain.map.height {
        for x in 0..w {
            let idx = (y * w + x) as usize;
            let inside = x < 3 && y < 3;
            if !inside {
                assert_eq!(
                    plain.map.tiles[idx], overlaid.map.tiles[idx],
                    "tile ({}, {}) changed outside the pasted rectangle",
                    x, y
                );
            }
        }
    }
    // inside the rectangle the section's own cells stand
    assert_eq!(overlaid.map.tiles[0], TileType::Wall);
    let center = overlaid.map.xy_idx(1, 1);
    assert_eq!(overlaid.map.tiles[center], TileType::Floor);
}

#[test]
fn low_vault_roll_places_no_vault() {
    let mut plain_chain = BuilderChain::with_dimensions(12, 7, 1);
    plain_chain.set_initial(BuilderStage::Prefab(PrefabBuilder::constant(
        mapgen::prefab_levels::demo_arena(),
    )));
    let mut vault_chain = BuilderChain::with_dimensions(12, 7, 1);
    vault_chain.set_initial(BuilderStage::Prefab(PrefabBuilder::constant(
        mapgen::prefab_levels::demo_arena(),
    )));
    vault_chain.add_stage(BuilderStage::Prefab(PrefabBuilder::vaults()));
    // a roll of one against depth one stays under the threshold of four, so
    // the vault overlay changes nothing
    let mut rng_plain = Rng::fixed(1);
    let plain = plain_chain.run(&mut rng_plain).expect("arena builds");
    let mut rng_vault = Rng::fixed(1);
    let vaulted = vault_chain.run(&mut rng_vault).expect("arena builds");
    assert_eq!(plain.map.tiles, vaulted.map.tiles);
    assert_eq!(plain.spawn_list, vaulted.spawn_list);
    assert_eq!(plain.starting_position, vaulted.starting_position);
}

#[test]
fn vault_overlay_stamps_spawning_vaults() {
    // an open hall gives every vault an anchor; a constant high roll
    // clears the depth rule and asks for three vaults
    let mut rows = String::new();
    for y in 0..20 {
        for _x in 0..30 {
            if y == 0 || y == 19 {
                rows.push('#');
            } else {
                rows.push(' ');
            }
        }
        rows.push('\n');
    }
    let mut cells = rows.clone();
    // close the side borders
    let fixed: String = rows
        .lines()
        .map(|l| {
            let mut l = l.to_string();
            l.replace_range(0..1, "#");
            l.replace_range(29..30, "#");
            l.push('\n');
            l
        })
        .collect();
    cells.clear();
    cells.push_str(&fixed);
    let level = PrefabLevel::new(&cells, 30, 20);
    let mut chain = BuilderChain::with_dimensions(30, 20, 2);
    chain.set_initial(BuilderStage::Prefab(PrefabBuilder::constant(level)));
    chain.add_stage(BuilderStage::Prefab(PrefabBuilder::vaults()));
    let mut rng = Rng::fixed(6);
    let ctx = chain.run(&mut rng).expect("open hall builds");
    let names: Vec<&str> = ctx.spawn_list.iter().map(|e| e.1.as_str()).collect();
    assert!(names.contains(&"Bear Trap"));
    assert!(names.contains(&"Rations"));
    assert!(names.contains(&"Health Potion"));
}

#[test]
fn random_builder_is_reproducible() {
    let mut rng1 = Rng::seeded(31337);
    let chain1 = random_builder(4, &mut rng1);
    let mut rng2 = Rng::seeded(31337);
    let chain2 = random_builder(4, &mut rng2);
    assert_eq!(chain1.stages.len(), chain2.stages.len());
    let a = chain1.run(&mut rng1).expect("random chain builds");
    let b = chain2.run(&mut rng2).expect("random chain builds");
    assert_eq!(a.map.tiles, b.map.tiles);
    assert_eq!(a.starting_position, b.starting_position);
    assert_eq!(a.spawn_list, b.spawn_list);
}

#[test]
fn visualization_toggle_records_snapshots() {
    let mut chain = BuilderChain::with_dimensions(12, 7, 1);
    chain.set_initial(BuilderStage::Prefab(PrefabBuilder::constant(
        mapgen::prefab_levels::demo_arena(),
    )));
    let silent = run_chain(&chain, 8);
    assert_eq!(silent.get_snapshot_history().len(), 0);
    chain.set_visualization(true);
    let recorded = run_chain(&chain, 8);
    let history = recorded.get_snapshot_history();
    assert!(!history.is_empty());
    for snap in &history {
        assert!(snap.revealed_tiles.iter().all(|r| *r));
    }
    // the toggle never changes the generated level itself
    assert_eq!(silent.map.tiles, recorded.map.tiles);
}

#[test]
fn sectional_anchors_place_the_rectangle() {
    // right/bottom placement of a 3-by-3 section on a 10-by-8 grid puts
    // its corner at (6, 4)
    let level = PrefabLevel::new(
        "##########\n#        #\n#        #\n#  @     #\n#        #\n#        #\n#        #\n##########",
        10,
        8,
    );
    let section = PrefabSection::new(
        ">##\n###\n###",
        3,
        3,
        (HorizontalPlacement::Right, VerticalPlacement::Bottom),
    );
    let mut chain = BuilderChain::with_dimensions(10, 8, 1);
    chain.set_initial(BuilderStage::Prefab(PrefabBuilder::constant(level)));
    chain.add_stage(BuilderStage::Prefab(PrefabBuilder::sectional(section)));
    let ctx = run_chain(&chain, 2);
    let map = ctx.get_map();
    let corner = map.xy_idx(6, 4);
    assert_eq!(map.tiles[corner], TileType::DownStairs);
    for (dx, dy) in [(1, 0), (2, 0), (0, 1), (1, 1), (2, 2)] {
        let idx = map.xy_idx(6 + dx, 4 + dy);
        assert_eq!(map.tiles[idx], TileType::Wall);
    }
}

#[test]
fn meta_stages_override_start_and_exit() {
    let mut chain = BuilderChain::with_dimensions(12, 7, 1);
    chain.set_initial(BuilderStage::Prefab(PrefabBuilder::constant(
        mapgen::prefab_levels::demo_arena(),
    )));
    chain.add_stage(BuilderStage::AreaStartingPosition { x: XStart::Right, y: YStart::Top });
    chain.add_stage(BuilderStage::DistantExit);
    let ctx = run_chain(&chain, 6);
    let map = ctx.get_map();
    let pos = ctx.get_starting_position().expect("anchor start claimed");
    // the floor tile nearest the top-right corner
    assert_eq!((pos.x, pos.y), (10, 1));
    // the farthest reachable floor tile in raster order is the top-left
    // interior corner
    let exit = map.xy_idx(1, 1);
    assert_eq!(map.tiles[exit], TileType::DownStairs);
}

#[test]
fn all_wall_template_reports_no_starting_point() {
    let level = PrefabLevel::new("#########", 3, 3);
    let mut chain = BuilderChain::with_dimensions(3, 3, 1);
    chain.set_initial(BuilderStage::Prefab(PrefabBuilder::constant(level)));
    let mut rng = Rng::seeded(1);
    assert!(matches!(chain.run(&mut rng), Err(BuildError::NoStartingPoint)));
}

#[test]
fn cull_after_burying_the_start_reports_missing_start() {
    // a sectional overlay walls over the claimed starting position; the
    // cull stage then finds the start is no longer a floor tile
    let section = PrefabSection::new(
        "###
###
###",
        3,
        3,
        (HorizontalPlacement::Left, VerticalPlacement::Center),
    );
    let mut chain = BuilderChain::with_dimensions(12, 7, 1);
    chain.set_initial(BuilderStage::Prefab(PrefabBuilder::constant(
        mapgen::prefab_levels::demo_arena(),
    )));
    chain.add_stage(BuilderStage::Prefab(PrefabBuilder::sectional(section)));
    chain.add_stage(BuilderStage::CullUnreachable);
    let mut rng = Rng::seeded(1);
    assert!(matches!(
        chain.run(&mut rng),
        Err(BuildError::MissingStartingPosition)
    ));
}
