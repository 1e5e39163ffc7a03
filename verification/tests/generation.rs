use cavegen::builder::CellularAutomataBuilder;
use cavegen::landmarks::{find_start, place_exit};
use cavegen::map::{Grid, Position, TileType};

fn built(width: usize, height: usize, seed: u64) -> CellularAutomataBuilder {
    let mut b = CellularAutomataBuilder::new(width, height, 1);
    b.build_map(seed).expect("seed should yield a start position");
    b
}

fn make_grid(width: usize, height: usize, floors: &[(usize, usize)]) -> Grid {
    let mut g = Grid::new(width, height, 1);
    for &(x, y) in floors {
        let idx = y * width + x;
        g.tiles[idx] = TileType::Floor;
    }
    g
}

#[test]
fn end_to_end_80x50_seed_42() {
    let b = built(80, 50, 42);
    let map = b.get_map();
    let interior = (80 - 2) * (50 - 2);
    let floors = map.tiles.iter().filter(|t| **t == TileType::Floor).count();
    assert!(floors * 5 > interior, "under 20% floor");
    assert!(floors * 5 < interior * 4, "over 80% floor");
    let p = b.get_starting_position();
    assert!(p.x >= 0 && (p.x as usize) < 80);
    assert!(p.y >= 0 && (p.y as usize) < 50);
    let idx = (p.y as usize) * 80 + p.x as usize;
    assert_eq!(map.tiles[idx], TileType::Floor);
    assert!(!b.get_noise_areas().is_empty());
}

#[test]
fn border_is_all_wall() {
    let b = built(80, 50, 42);
    let map = b.get_map();
    for x in 0..80usize {
        assert_eq!(map.tiles[x], TileType::Wall);
        assert_eq!(map.tiles[49 * 80 + x], TileType::Wall);
    }
    for y in 0..50usize {
        assert_eq!(map.tiles[y * 80], TileType::Wall);
        assert_eq!(map.tiles[y * 80 + 79], TileType::Wall);
    }
}

#[test]
fn sixteen_fully_revealed_snapshots() {
    let b = built(80, 50, 42);
    let history = b.get_snapshot_history();
    assert_eq!(history.len(), 16);
    for snap in history.iter() {
        assert_eq!(snap.revealed_tiles.len(), 80 * 50);
        assert!(snap.revealed_tiles.iter().all(|r| *r));
    }
    // The live grid keeps its own overlay: snapshots are deep copies.
    assert!(b.get_map().revealed_tiles.iter().all(|r| !*r));
}

#[test]
fn noise_areas_partition_floor_tiles() {
    let b = built(80, 50, 42);
    let map = b.get_map();
    let mut seen = std::collections::HashSet::new();
    for (_key, bucket) in b.get_noise_areas().iter() {
        for &idx in bucket.iter() {
            assert_eq!(map.tiles[idx], TileType::Floor, "bucketed tile is not Floor");
            assert!(seen.insert(idx), "index {} appears in two buckets", idx);
        }
    }
    let floors = map.tiles.iter().filter(|t| **t == TileType::Floor).count();
    assert_eq!(seen.len(), floors, "some Floor tile is missing from the buckets");
    assert!(b.get_noise_areas().len() > 1, "noise should split the cave into several regions");
}

#[test]
fn same_seed_same_output() {
    let a = built(80, 50, 42);
    let b = built(80, 50, 42);
    assert_eq!(a.get_map().tiles, b.get_map().tiles);
    assert_eq!(a.get_starting_position(), b.get_starting_position());
    let ka: std::collections::BTreeMap<i32, Vec<usize>> =
        a.get_noise_areas().iter().map(|(k, v)| (*k, v.clone())).collect();
    let kb: std::collections::BTreeMap<i32, Vec<usize>> =
        b.get_noise_areas().iter().map(|(k, v)| (*k, v.clone())).collect();
    assert_eq!(ka, kb);
}

#[test]
fn boundary_10x10_never_out_of_bounds() {
    for seed in 0..25u64 {
        let mut b = CellularAutomataBuilder::new(10, 10, 1);
        let r = b.build_map(seed);
        assert_eq!(b.get_snapshot_history().len(), 16);
        let map = b.get_map();
        assert_eq!(map.tiles.len(), 100);
        if r.is_ok() {
            let p = b.get_starting_position();
            assert!((p.x as usize) < 10 && (p.y as usize) < 10);
        }
    }
}

#[test]
fn exit_each_edge_marks_at_most_one() {
    for edge in 1..=4i32 {
        let mut g = make_grid(8, 8, &[(3, 3), (4, 3), (3, 4)]);
        let placed = place_exit(&mut g, edge);
        assert!(placed);
        let stairs = g.tiles.iter().filter(|t| **t == TileType::DownStairs).count();
        assert_eq!(stairs, 1, "edge {} placed {} exits", edge, stairs);
    }
}

#[test]
fn exit_on_floorless_grid_places_nothing() {
    for edge in 1..=4i32 {
        let mut g = make_grid(8, 8, &[]);
        let placed = place_exit(&mut g, edge);
        assert!(!placed);
        let stairs = g.tiles.iter().filter(|t| **t == TileType::DownStairs).count();
        assert_eq!(stairs, 0);
    }
}

#[test]
fn start_scan_finds_first_floor_below_center() {
    // 8x8 grid: center column is x = 4, scan starts at y = 4.
    let g = make_grid(8, 8, &[(4, 6), (4, 5), (2, 4)]);
    let p = find_start(&g).expect("a floor tile lies on the scan path");
    assert_eq!(p, Position { x: 4, y: 5 });
}

#[test]
fn start_scan_fails_without_floor_on_path() {
    // Floor only above the center row and off the center column.
    let g = make_grid(8, 8, &[(4, 2), (1, 5)]);
    assert!(find_start(&g).is_none());
}

#[test]
fn degenerate_all_wall_seed_reports_out_of_bounds() {
    // A 4x4 grid has a 2x2 interior; many seeds smooth it to all
    // Wall, in which case the run must fail cleanly.
    let mut failed = 0;
    for seed in 0..50u64 {
        let mut b = CellularAutomataBuilder::new(4, 4, 1);
        if b.build_map(seed).is_err() {
            failed += 1;
            let map = b.get_map();
            assert!(map.tiles.iter().all(|t| *t != TileType::DownStairs));
        }
    }
    assert!(failed > 0, "some tiny seed should produce a degenerate layout");
}
