use vstd::prelude::*;
use crate::map::{idx_at, in_grid, lemma_cell_index, lemma_index_cell, Grid, Position, TileType};

verus! {

/// Where the downward scan for the start position looks: the center
/// column, from the center row to the bottom of the grid.
pub open spec fn start_scan_hit(tiles: Seq<TileType>, width: int, height: int, y: int) -> bool {
    tiles[idx_at(width, width / 2, y)] == TileType::Floor
}

/// Find the player's start: the first Floor tile at or below the map
/// center in the center column. `None` when that scan path holds no
/// Floor tile at all (a degenerate layout the caller must reject).
#[verifier::loop_isolation(false)]
pub fn find_start(grid: &Grid) -> (r: Option<Position>)
    requires
        grid.inv(),
    ensures
        ({
            let w = grid.width as int;
            let h = grid.height as int;
            match r {
                Some(p) => {
                    &&& p.x as int == w / 2
                    &&& h / 2 <= p.y as int
                    &&& (p.y as int) < h
                    &&& start_scan_hit(grid.tiles@, w, h, p.y as int)
                    &&& forall|yy: int| h / 2 <= yy < p.y as int ==> !start_scan_hit(grid.tiles@, w, h, yy)
                },
                None => forall|yy: int| h / 2 <= yy < h ==> !start_scan_hit(grid.tiles@, w, h, yy),
            }
        }),
{
    let ghost w = grid.width as int;
    let ghost h = grid.height as int;
    let cx = grid.width / 2;
    let mut y = grid.height / 2;
    while y < grid.height
        invariant
            h / 2 <= y <= h,
            forall|yy: int| h / 2 <= yy < y ==> !start_scan_hit(grid.tiles@, w, h, yy),
        decreases h - y,
    {
        let idx = grid.xy_idx(cx, y);
        if grid.tiles[idx] == TileType::Floor {
            return Some(Position { x: cx as i32, y: y as i32 });
        }
        y = y + 1;
    }
    None
}

/// The cell the exit scan visits at step `t` for the given edge:
/// edges 1 (left) and 3 (right) walk each column top to bottom,
/// stepping inward on exhaustion; edges 2 (top) and 4 (bottom) walk
/// each row left to right, stepping inward likewise.
pub open spec fn exit_scan_cell(edge: int, width: int, height: int, t: int) -> (int, int) {
    if edge == 1 {
        (t / height, t % height)
    } else if edge == 2 {
        (t % width, t / width)
    } else if edge == 3 {
        (width - 1 - t / height, t % height)
    } else {
        (t % width, height - 1 - t / width)
    }
}

/// Flat index of the cell the exit scan visits at step `t`.
pub open spec fn exit_scan_idx(edge: int, width: int, height: int, t: int) -> int {
    idx_at(width, exit_scan_cell(edge, width, height, t).0, exit_scan_cell(edge, width, height, t).1)
}

/// The exit scan visits only in-bounds cells.
pub proof fn lemma_exit_scan_bounds(edge: int, width: int, height: int, t: int)
    requires
        1 <= width,
        1 <= height,
        0 <= t < width * height,
    ensures
        in_grid(width, height, exit_scan_cell(edge, width, height, t).0, exit_scan_cell(edge, width, height, t).1),
        0 <= exit_scan_idx(edge, width, height, t) < width * height,
{
    if edge == 1 || edge == 3 {
        assert(0 <= t < height * width) by (nonlinear_arith)
            requires 0 <= t < width * height;
        lemma_index_cell(height, width, t);
    } else {
        lemma_index_cell(width, height, t);
    }
    let (x, y) = exit_scan_cell(edge, width, height, t);
    lemma_cell_index(width, height, x, y);
}

/// The first step at or after `t0` where the exit scan stands on a
/// Floor tile, if any.
pub open spec fn first_exit_from(tiles: Seq<TileType>, edge: int, width: int, height: int, t0: int) -> Option<int>
    decreases width * height - t0,
{
    if t0 < 0 || t0 >= width * height {
        None
    } else if tiles[exit_scan_idx(edge, width, height, t0)] == TileType::Floor {
        Some(t0)
    } else {
        first_exit_from(tiles, edge, width, height, t0 + 1)
    }
}

/// A found exit step lies in range and stands on Floor.
pub proof fn lemma_first_exit_from(tiles: Seq<TileType>, edge: int, width: int, height: int, t0: int)
    requires
        1 <= width,
        1 <= height,
    ensures
        match first_exit_from(tiles, edge, width, height, t0) {
            Some(t) => {
                &&& t0 <= t < width * height
                &&& 0 <= exit_scan_idx(edge, width, height, t) < width * height
                &&& tiles[exit_scan_idx(edge, width, height, t)] == TileType::Floor
            },
            None => true,
        },
    decreases width * height - t0,
{
    if t0 < 0 || t0 >= width * height {
    } else {
        lemma_exit_scan_bounds(edge, width, height, t0);
        if tiles[exit_scan_idx(edge, width, height, t0)] != TileType::Floor {
            lemma_first_exit_from(tiles, edge, width, height, t0 + 1);
        }
    }
}

/// What the grid looks like after the exit placement for `edge`: the
/// first Floor tile in that edge's scan order becomes DownStairs; a
/// grid without Floor is left unchanged.
pub open spec fn exit_tiles(tiles: Seq<TileType>, edge: int, width: int, height: int) -> Seq<TileType> {
    match first_exit_from(tiles, edge, width, height, 0) {
        Some(t) => tiles.update(exit_scan_idx(edge, width, height, t), TileType::DownStairs),
        None => tiles,
    }
}

/// Mark the level exit for the rolled edge: scan along the edge and,
/// on failure, step the edge inward, converting the first Floor tile
/// found to DownStairs. Returns whether an exit was placed.
#[verifier::loop_isolation(false)]
pub fn place_exit(grid: &mut Grid, edge: i32) -> (placed: bool)
    requires
        old(grid).inv(),
        1 <= edge <= 4,
    ensures
        final(grid).inv(),
        final(grid).width == old(grid).width,
        final(grid).height == old(grid).height,
        final(grid).depth == old(grid).depth,
        final(grid).revealed_tiles@ == old(grid).revealed_tiles@,
        final(grid).tiles@ == exit_tiles(old(grid).tiles@, edge as int, old(grid).width as int, old(grid).height as int),
        placed <==> first_exit_from(old(grid).tiles@, edge as int, old(grid).width as int, old(grid).height as int, 0) is Some,
{
    let ghost w = grid.width as int;
    let ghost h = grid.height as int;
    let ghost tiles0 = grid.tiles@;
    let width = grid.width;
    let height = grid.height;
    let n = width * height;
    let mut t: usize = 0;
    while t < n
        invariant
            0 <= t <= w * h,
            grid == old(grid),
            first_exit_from(tiles0, edge as int, w, h, 0) == first_exit_from(tiles0, edge as int, w, h, t as int),
        decreases n - t,
    {
        proof {
            lemma_exit_scan_bounds(edge as int, w, h, t as int);
        }
        let x: usize;
        let y: usize;
        if edge == 1 {
            x = t / height;
            y = t % height;
        } else if edge == 2 {
            x = t % width;
            y = t / width;
        } else if edge == 3 {
            x = width - 1 - t / height;
            y = t % height;
        } else {
            x = t % width;
            y = height - 1 - t / width;
        }
        assert((x as int, y as int) == exit_scan_cell(edge as int, w, h, t as int));
        let idx = grid.xy_idx(x, y);
        if grid.tiles[idx] == TileType::Floor {
            grid.tiles[idx] = TileType::DownStairs;
            assert(grid.tiles@ =~= exit_tiles(tiles0, edge as int, w, h));
            return true;
        }
        t = t + 1;
    }
    false
}

/// How many cells of a tile buffer hold the given tile.
pub open spec fn count_tile(tiles: Seq<TileType>, t: TileType) -> int
    decreases tiles.len(),
{
    if tiles.len() == 0 {
        0
    } else {
        count_tile(tiles.drop_last(), t) + if tiles.last() == t {
            1int
        } else {
            0int
        }
    }
}

/// A buffer without the tile counts zero of it.
pub proof fn lemma_count_tile_zero(tiles: Seq<TileType>, t: TileType)
    requires
        forall|i: int| 0 <= i < tiles.len() ==> tiles[i] != t,
    ensures
        count_tile(tiles, t) == 0,
    decreases tiles.len(),
{
    if tiles.len() > 0 {
        lemma_count_tile_zero(tiles.drop_last(), t);
    }
}

/// Overwriting one cell changes the count by what leaves and what
/// arrives.
pub proof fn lemma_count_tile_update(tiles: Seq<TileType>, j: int, v: TileType, t: TileType)
    requires
        0 <= j < tiles.len(),
    ensures
        count_tile(tiles.update(j, v), t) == count_tile(tiles, t)
            - (if tiles[j] == t { 1int } else { 0int })
            + (if v == t { 1int } else { 0int }),
    decreases tiles.len(),
{
    let upd = tiles.update(j, v);
    if j == tiles.len() - 1 {
        assert(upd.drop_last() =~= tiles.drop_last());
    } else {
        assert(upd.drop_last() =~= tiles.drop_last().update(j, v));
        lemma_count_tile_update(tiles.drop_last(), j, v, t);
    }
}

/// Exit placement marks at most one DownStairs tile: exactly one when
/// the scan for the chosen edge finds a Floor tile, none otherwise —
/// never more than one, whichever edge is forced.
pub proof fn lemma_exit_at_most_one(tiles: Seq<TileType>, edge: int, width: int, height: int)
    requires
        1 <= width,
        1 <= height,
        tiles.len() == width * height,
        forall|i: int| 0 <= i < tiles.len() ==> tiles[i] != TileType::DownStairs,
    ensures
        count_tile(exit_tiles(tiles, edge, width, height), TileType::DownStairs) == (
            if first_exit_from(tiles, edge, width, height, 0) is Some { 1int } else { 0int }),
{
    lemma_count_tile_zero(tiles, TileType::DownStairs);
    lemma_first_exit_from(tiles, edge, width, height, 0);
    match first_exit_from(tiles, edge, width, height, 0) {
        Some(t) => {
            lemma_count_tile_update(tiles, exit_scan_idx(edge, width, height, t), TileType::DownStairs, TileType::DownStairs);
        },
        None => {},
    }
}

} // verus!
