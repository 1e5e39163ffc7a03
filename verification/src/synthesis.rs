use vstd::prelude::*;
use crate::map::{idx_at, interior, lemma_cell_index, lemma_index_cell, Grid, TileType};
use crate::map::clone_tiles;
use crate::rng::{roll_of, DiceRng};

verus! {

/// Number of interior (non-border) cells of a `width * height` grid.
pub open spec fn interior_count(width: int, height: int) -> int {
    (width - 2) * (height - 2)
}

/// The roll trace after `k` one-die-of-100 draws: `k` copies of
/// `(1, 100)`.
pub open spec fn uniform_trace(k: int) -> Seq<(int, int)> {
    Seq::new(k as nat, |i: int| (1int, 100int))
}

/// Drawing one more `(1, 100)` roll extends the uniform trace by one.
pub proof fn lemma_uniform_trace_step(k: int)
    requires
        0 <= k,
    ensures
        uniform_trace(k).push((1int, 100int)) == uniform_trace(k + 1),
{
    assert(uniform_trace(k).push((1int, 100int)) =~= uniform_trace(k + 1));
}

/// How many interior cells precede `(x, y)` in the row-major seeding
/// order.
pub open spec fn seed_cell_order(width: int, x: int, y: int) -> int {
    (y - 1) * (width - 2) + (x - 1)
}

/// The `[1, 100]` roll drawn for interior cell `(x, y)` during the
/// seed pass of a run started from `seed`.
pub open spec fn seed_roll(seed: u64, width: int, x: int, y: int) -> int {
    roll_of(seed, uniform_trace(seed_cell_order(width, x, y)), 1, 100)
}

/// What the seed pass leaves at `(x, y)`: border cells stay Wall;
/// an interior cell becomes Floor exactly when its roll exceeds 55.
pub open spec fn seeded_tile(seed: u64, width: int, height: int, x: int, y: int) -> TileType {
    if interior(width, height, x, y) {
        if seed_roll(seed, width, x, y) > 55 {
            TileType::Floor
        } else {
            TileType::Wall
        }
    } else {
        TileType::Wall
    }
}

/// The whole grid after the seed pass.
pub open spec fn seeded_tiles(seed: u64, width: int, height: int) -> Seq<TileType> {
    Seq::new((width * height) as nat, |i: int| seeded_tile(seed, width, height, i % width, i / width))
}

/// 1 when the cell at `(x, y)` is Wall, else 0.
pub open spec fn wall_flag(tiles: Seq<TileType>, width: int, x: int, y: int) -> int {
    if tiles[idx_at(width, x, y)] == TileType::Wall {
        1
    } else {
        0
    }
}

/// How many of the 8 cells around `(x, y)` are Wall.
#[verifier::opaque]
pub open spec fn wall_neighbors(tiles: Seq<TileType>, width: int, x: int, y: int) -> int {
    wall_flag(tiles, width, x - 1, y) + wall_flag(tiles, width, x + 1, y)
        + wall_flag(tiles, width, x, y - 1) + wall_flag(tiles, width, x, y + 1)
        + wall_flag(tiles, width, x - 1, y - 1) + wall_flag(tiles, width, x + 1, y - 1)
        + wall_flag(tiles, width, x - 1, y + 1) + wall_flag(tiles, width, x + 1, y + 1)
}

/// One smoothing step at one cell: an interior cell becomes Wall when
/// it has more than 4 or exactly 0 Wall neighbors, else Floor; border
/// cells are never rewritten.
pub open spec fn smoothed_tile(tiles: Seq<TileType>, width: int, height: int, x: int, y: int) -> TileType {
    if interior(width, height, x, y) {
        let n = wall_neighbors(tiles, width, x, y);
        if n > 4 || n == 0 {
            TileType::Wall
        } else {
            TileType::Floor
        }
    } else {
        tiles[idx_at(width, x, y)]
    }
}

/// One full smoothing pass, computed everywhere from the old grid.
pub open spec fn smoothed_tiles(tiles: Seq<TileType>, width: int, height: int) -> Seq<TileType> {
    Seq::new(tiles.len(), |i: int| smoothed_tile(tiles, width, height, i % width, i / width))
}

/// `n` smoothing passes.
pub open spec fn smoothed_n(tiles: Seq<TileType>, width: int, height: int, n: int) -> Seq<TileType>
    decreases n,
{
    if n <= 0 {
        tiles
    } else {
        smoothed_tiles(smoothed_n(tiles, width, height, n - 1), width, height)
    }
}

/// Fill every interior cell with noise: a fresh `[1, 100]` roll per
/// cell in row-major order, Floor on a roll above 55.
#[verifier::loop_isolation(false)]
pub fn seed_pass(grid: &mut Grid, rng: &mut DiceRng)
    requires
        old(grid).inv(),
        forall|i: int| 0 <= i < old(grid).tiles@.len() ==> old(grid).tiles@[i] == TileType::Wall,
        old(rng).trace() == Seq::<(int, int)>::empty(),
    ensures
        final(grid).inv(),
        final(grid).width == old(grid).width,
        final(grid).height == old(grid).height,
        final(grid).depth == old(grid).depth,
        final(grid).revealed_tiles@ == old(grid).revealed_tiles@,
        final(grid).tiles@ == seeded_tiles(old(rng).seed(), old(grid).width as int, old(grid).height as int),
        final(rng).seed() == old(rng).seed(),
        final(rng).trace() == uniform_trace(interior_count(old(grid).width as int, old(grid).height as int)),
{
    let ghost w = old(grid).width as int;
    let ghost h = old(grid).height as int;
    let ghost seed0 = old(rng).seed();
    let width = grid.width;
    let height = grid.height;
    let mut y: usize = 1;
    assert(uniform_trace(0) =~= Seq::<(int, int)>::empty());
    while y < height - 1
        invariant
            1 <= y <= h - 1,
            grid.inv(),
            grid.width == old(grid).width,
            grid.height == old(grid).height,
            grid.depth == old(grid).depth,
            grid.revealed_tiles@ == old(grid).revealed_tiles@,
            rng.seed() == seed0,
            rng.trace() == uniform_trace((y - 1) * (w - 2)),
            forall|i: int| 0 <= i < w * h ==> grid.tiles@[i] == (
                if i / w < y { seeded_tile(seed0, w, h, i % w, i / w) } else { TileType::Wall }),
        decreases h - y,
    {
        let mut x: usize = 1;
        while x < width - 1
            invariant
                1 <= y <= h - 2,
                1 <= x <= w - 1,
                grid.inv(),
                grid.width == old(grid).width,
                grid.height == old(grid).height,
                grid.depth == old(grid).depth,
                grid.revealed_tiles@ == old(grid).revealed_tiles@,
                rng.seed() == seed0,
                rng.trace() == uniform_trace((y - 1) * (w - 2) + (x - 1)),
                forall|i: int| 0 <= i < w * h ==> grid.tiles@[i] == (
                    if i / w < y || (i / w == y && i % w < x) {
                        seeded_tile(seed0, w, h, i % w, i / w)
                    } else {
                        TileType::Wall
                    }),
            decreases w - x,
        {
            let roll = rng.roll_dice(1, 100);
            let idx = grid.xy_idx(x, y);
            proof {
                lemma_cell_index(w, h, x as int, y as int);
                assert(roll == seed_roll(seed0, w, x as int, y as int));
                lemma_uniform_trace_step((y - 1) * (w - 2) + (x - 1));
            }
            if roll > 55 {
                grid.tiles[idx] = TileType::Floor;
            } else {
                grid.tiles[idx] = TileType::Wall;
            }
            proof {
                assert(grid.tiles@[idx as int] == seeded_tile(seed0, w, h, x as int, y as int));
                assert forall|i: int| 0 <= i < w * h implies grid.tiles@[i] == (
                    if i / w < y || (i / w == y && i % w < x + 1) {
                        seeded_tile(seed0, w, h, i % w, i / w)
                    } else {
                        TileType::Wall
                    }) by {
                    lemma_index_cell(w, h, i);
                }
            }
            x = x + 1;
        }
        proof {
            assert((y - 1) * (w - 2) + (w - 2) == ((y + 1) - 1) * (w - 2)) by (nonlinear_arith);
            assert forall|i: int| 0 <= i < w * h implies grid.tiles@[i] == (
                if i / w < y + 1 { seeded_tile(seed0, w, h, i % w, i / w) } else { TileType::Wall }) by {
                lemma_index_cell(w, h, i);
            }
        }
        y = y + 1;
    }
    proof {
        assert((h - 2) * (w - 2) == interior_count(w, h)) by (nonlinear_arith);
        assert forall|i: int| 0 <= i < w * h implies grid.tiles@[i] == seeded_tile(seed0, w, h, i % w, i / w) by {
            lemma_index_cell(w, h, i);
        }
        assert(grid.tiles@ =~= seeded_tiles(seed0, w, h));
    }
}

/// Count the Wall cells among the 8 neighbors of interior cell
/// `(x, y)`.
fn count_wall_neighbors(grid: &Grid, x: usize, y: usize) -> (c: u32)
    requires
        grid.inv(),
        interior(grid.width as int, grid.height as int, x as int, y as int),
    ensures
        c == wall_neighbors(grid.tiles@, grid.width as int, x as int, y as int),
{
    let mut c: u32 = 0;
    if grid.tiles[grid.xy_idx(x - 1, y)] == TileType::Wall {
        c = c + 1;
    }
    if grid.tiles[grid.xy_idx(x + 1, y)] == TileType::Wall {
        c = c + 1;
    }
    if grid.tiles[grid.xy_idx(x, y - 1)] == TileType::Wall {
        c = c + 1;
    }
    if grid.tiles[grid.xy_idx(x, y + 1)] == TileType::Wall {
        c = c + 1;
    }
    if grid.tiles[grid.xy_idx(x - 1, y - 1)] == TileType::Wall {
        c = c + 1;
    }
    if grid.tiles[grid.xy_idx(x + 1, y - 1)] == TileType::Wall {
        c = c + 1;
    }
    if grid.tiles[grid.xy_idx(x - 1, y + 1)] == TileType::Wall {
        c = c + 1;
    }
    if grid.tiles[grid.xy_idx(x + 1, y + 1)] == TileType::Wall {
        c = c + 1;
    }
    proof {
        reveal(wall_neighbors);
    }
    c
}

/// Recompute one interior row of the smoothing pass into `newtiles`,
/// reading every neighbor from the old grid.
#[verifier::loop_isolation(false)]
fn smooth_row(grid: &Grid, newtiles: &mut Vec<TileType>, y: usize)
    requires
        grid.inv(),
        1 <= y <= grid.height - 2,
        old(newtiles)@.len() == grid.width * grid.height,
        forall|i: int| 0 <= i < grid.width * grid.height ==> old(newtiles)@[i] == (
            if i / (grid.width as int) < y {
                smoothed_tile(grid.tiles@, grid.width as int, grid.height as int, i % (grid.width as int), i / (grid.width as int))
            } else {
                grid.tiles@[i]
            }),
    ensures
        final(newtiles)@.len() == grid.width * grid.height,
        forall|i: int| 0 <= i < grid.width * grid.height ==> final(newtiles)@[i] == (
            if i / (grid.width as int) < y + 1 {
                smoothed_tile(grid.tiles@, grid.width as int, grid.height as int, i % (grid.width as int), i / (grid.width as int))
            } else {
                grid.tiles@[i]
            }),
{
    let ghost w = grid.width as int;
    let ghost h = grid.height as int;
    let ghost tiles0 = grid.tiles@;
    let width = grid.width;
    let mut x: usize = 1;
    proof {
        assert forall|i: int| 0 <= i < w * h implies newtiles@[i] == (
            if i / w < y || (i / w == y && i % w < 1) {
                smoothed_tile(tiles0, w, h, i % w, i / w)
            } else {
                tiles0[i]
            }) by {
            lemma_index_cell(w, h, i);
        }
    }
    while x < width - 1
        invariant
            1 <= x <= w - 1,
            newtiles@.len() == w * h,
            forall|i: int| 0 <= i < w * h ==> newtiles@[i] == (
                if i / w < y || (i / w == y && i % w < x) {
                    smoothed_tile(tiles0, w, h, i % w, i / w)
                } else {
                    tiles0[i]
                }),
        decreases w - x,
    {
        let neighbors = count_wall_neighbors(grid, x, y);
        let idx = grid.xy_idx(x, y);
        if neighbors > 4 || neighbors == 0 {
            newtiles[idx] = TileType::Wall;
        } else {
            newtiles[idx] = TileType::Floor;
        }
        proof {
            lemma_cell_index(w, h, x as int, y as int);
            assert(newtiles@[idx as int] == smoothed_tile(tiles0, w, h, x as int, y as int));
            assert forall|i: int| 0 <= i < w * h implies newtiles@[i] == (
                if i / w < y || (i / w == y && i % w < x + 1) {
                    smoothed_tile(tiles0, w, h, i % w, i / w)
                } else {
                    tiles0[i]
                }) by {
                lemma_index_cell(w, h, i);
            }
        }
        x = x + 1;
    }
    proof {
        assert forall|i: int| 0 <= i < w * h implies newtiles@[i] == (
            if i / w < y + 1 { smoothed_tile(tiles0, w, h, i % w, i / w) } else { tiles0[i] }) by {
            lemma_index_cell(w, h, i);
        }
    }
}

/// One cellular-automaton smoothing pass: every interior cell is
/// recomputed from the previous grid (never in place), border cells
/// stay as they were.
#[verifier::loop_isolation(false)]
pub fn smooth_pass(grid: &mut Grid)
    requires
        old(grid).inv(),
    ensures
        final(grid).inv(),
        final(grid).width == old(grid).width,
        final(grid).height == old(grid).height,
        final(grid).depth == old(grid).depth,
        final(grid).revealed_tiles@ == old(grid).revealed_tiles@,
        final(grid).tiles@ == smoothed_tiles(old(grid).tiles@, old(grid).width as int, old(grid).height as int),
{
    let ghost w = old(grid).width as int;
    let ghost h = old(grid).height as int;
    let ghost tiles0 = old(grid).tiles@;
    let height = grid.height;
    let mut newtiles = clone_tiles(&grid.tiles);
    let mut y: usize = 1;
    proof {
        assert forall|i: int| 0 <= i < w * h implies newtiles@[i] == (
            if i / w < 1 { smoothed_tile(tiles0, w, h, i % w, i / w) } else { tiles0[i] }) by {
            lemma_index_cell(w, h, i);
        }
    }
    while y < height - 1
        invariant
            1 <= y <= h - 1,
            newtiles@.len() == w * h,
            forall|i: int| 0 <= i < w * h ==> newtiles@[i] == (
                if i / w < y { smoothed_tile(tiles0, w, h, i % w, i / w) } else { tiles0[i] }),
        decreases h - y,
    {
        smooth_row(grid, &mut newtiles, y);
        y = y + 1;
    }
    grid.tiles = newtiles;
    proof {
        assert forall|i: int| 0 <= i < w * h implies grid.tiles@[i] == smoothed_tile(tiles0, w, h, i % w, i / w) by {
            lemma_index_cell(w, h, i);
        }
        assert(grid.tiles@ =~= smoothed_tiles(tiles0, w, h));
    }
}

} // verus!
