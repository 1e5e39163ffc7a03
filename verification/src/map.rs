use vstd::prelude::*;
use vstd::arithmetic::div_mod::lemma_fundamental_div_mod_converse;

verus! {

/// One cell of the dungeon grid: solid rock, walkable ground, or the
/// level exit.
#[derive(Clone, Copy, PartialEq, Eq, Structural, Debug)]
pub enum TileType {
    Wall,
    Floor,
    DownStairs,
}

/// A 2D integer coordinate, used for the player's start position.
#[derive(Clone, Copy, PartialEq, Eq, Structural, Debug)]
pub struct Position {
    pub x: i32,
    pub y: i32,
}

/// Flat row-major index of the cell at column `x`, row `y`.
pub open spec fn idx_at(width: int, x: int, y: int) -> int {
    y * width + x
}

/// The cell lies inside the grid.
pub open spec fn in_grid(width: int, height: int, x: int, y: int) -> bool {
    0 <= x < width && 0 <= y < height
}

/// The cell lies strictly inside the border ring.
pub open spec fn interior(width: int, height: int, x: int, y: int) -> bool {
    1 <= x <= width - 2 && 1 <= y <= height - 2
}

/// Row-major indexing is a bijection between cells and flat indices:
/// the index of an in-bounds cell decomposes back into its column and
/// row, and lies inside the tile buffer.
pub proof fn lemma_cell_index(width: int, height: int, x: int, y: int)
    requires
        1 <= width,
        1 <= height,
        in_grid(width, height, x, y),
    ensures
        idx_at(width, x, y) % width == x,
        idx_at(width, x, y) / width == y,
        0 <= idx_at(width, x, y) < width * height,
{
    lemma_fundamental_div_mod_converse(y * width + x, width, y, x);
    assert(y * width + x < width * height) by (nonlinear_arith)
        requires 0 <= x < width && 0 <= y < height;
    assert(0 <= y * width + x) by (nonlinear_arith)
        requires 0 <= x && 0 <= y && 0 < width;
}

/// Every flat index inside the tile buffer decomposes into the
/// in-bounds cell whose row-major index it is.
pub proof fn lemma_index_cell(width: int, height: int, i: int)
    requires
        1 <= width,
        1 <= height,
        0 <= i < width * height,
    ensures
        in_grid(width, height, i % width, i / width),
        i == idx_at(width, i % width, i / width),
{
    vstd::arithmetic::div_mod::lemma_fundamental_div_mod(i, width);
    vstd::arithmetic::div_mod::lemma_mod_division_less_than_divisor(i, width);
    assert(0 <= i / width < height) by (nonlinear_arith)
        requires
            0 < width,
            0 <= i % width,
            i == width * (i / width) + i % width,
            0 <= i < width * height;
    assert(width * (i / width) == (i / width) * width) by (nonlinear_arith);
}

/// The rectangular tile grid: `width * height` cells in row-major
/// order, with a parallel `revealed_tiles` overlay used only for
/// generation playback.
pub struct Grid {
    pub width: usize,
    pub height: usize,
    pub tiles: Vec<TileType>,
    pub revealed_tiles: Vec<bool>,
    pub depth: i32,
}

impl Grid {
    /// Structural well-formedness: both buffers hold exactly
    /// `width * height` cells, and the dimensions are small enough
    /// that every index computation fits the machine types.
    pub open spec fn inv(self) -> bool {
        &&& 4 <= self.width
        &&& 4 <= self.height
        &&& self.width <= i32::MAX as usize
        &&& self.height <= i32::MAX as usize
        &&& self.width * self.height <= usize::MAX
        &&& self.tiles@.len() == self.width * self.height
        &&& self.revealed_tiles@.len() == self.width * self.height
    }

    /// A fresh grid of the given dimensions: every tile Wall, nothing
    /// revealed.
    pub fn new(width: usize, height: usize, depth: i32) -> (m: Grid)
        requires
            4 <= width,
            4 <= height,
            width <= i32::MAX as usize,
            height <= i32::MAX as usize,
            width * height <= usize::MAX,
        ensures
            m.inv(),
            m.width == width,
            m.height == height,
            m.depth == depth,
            forall|i: int| 0 <= i < width * height ==> m.tiles@[i] == TileType::Wall,
            forall|i: int| 0 <= i < width * height ==> m.revealed_tiles@[i] == false,
    {
        let n = width * height;
        let mut tiles: Vec<TileType> = Vec::new();
        let mut revealed_tiles: Vec<bool> = Vec::new();
        let mut i: usize = 0;
        while i < n
            invariant
                i <= n,
                tiles@.len() == i,
                revealed_tiles@.len() == i,
                forall|j: int| 0 <= j < i ==> tiles@[j] == TileType::Wall,
                forall|j: int| 0 <= j < i ==> revealed_tiles@[j] == false,
            decreases n - i,
        {
            tiles.push(TileType::Wall);
            revealed_tiles.push(false);
            i = i + 1;
        }
        Grid { width, height, tiles, revealed_tiles, depth }
    }

    /// Flat index of the cell at `(x, y)`.
    pub fn xy_idx(&self, x: usize, y: usize) -> (idx: usize)
        requires
            self.inv(),
            x < self.width,
            y < self.height,
        ensures
            idx == idx_at(self.width as int, x as int, y as int),
            idx < self.tiles@.len(),
    {
        proof {
            lemma_cell_index(self.width as int, self.height as int, x as int, y as int);
        }
        y * self.width + x
    }

    /// A deep copy of this grid.
    pub fn clone_map(&self) -> (m: Grid)
        ensures
            m.width == self.width,
            m.height == self.height,
            m.depth == self.depth,
            m.tiles@ == self.tiles@,
            m.revealed_tiles@ == self.revealed_tiles@,
    {
        Grid {
            width: self.width,
            height: self.height,
            tiles: clone_tiles(&self.tiles),
            revealed_tiles: clone_flags(&self.revealed_tiles),
            depth: self.depth,
        }
    }

    /// A deep copy of this grid with every cell marked revealed, so a
    /// visualizer can render the snapshot fully lit.
    pub fn revealed_snapshot(&self) -> (m: Grid)
        ensures
            m.width == self.width,
            m.height == self.height,
            m.depth == self.depth,
            m.tiles@ == self.tiles@,
            m.revealed_tiles@.len() == self.revealed_tiles@.len(),
            forall|i: int| 0 <= i < m.revealed_tiles@.len() ==> m.revealed_tiles@[i] == true,
    {
        let n = self.revealed_tiles.len();
        let mut revealed_tiles: Vec<bool> = Vec::new();
        let mut i: usize = 0;
        while i < n
            invariant
                i <= n,
                revealed_tiles@.len() == i,
                forall|j: int| 0 <= j < i ==> revealed_tiles@[j] == true,
            decreases n - i,
        {
            revealed_tiles.push(true);
            i = i + 1;
        }
        Grid {
            width: self.width,
            height: self.height,
            tiles: clone_tiles(&self.tiles),
            revealed_tiles,
            depth: self.depth,
        }
    }
}

/// An element-for-element copy of a tile buffer.
pub(crate) fn clone_tiles(v: &Vec<TileType>) -> (r: Vec<TileType>)
    ensures
        r@ == v@,
{
    let n = v.len();
    let mut r: Vec<TileType> = Vec::new();
    let mut i: usize = 0;
    while i < n
        invariant
            i <= n,
            n == v@.len(),
            r@ == v@.subrange(0, i as int),
        decreases n - i,
    {
        r.push(v[i]);
        assert(r@ =~= v@.subrange(0, i + 1 as int));
        i = i + 1;
    }
    assert(r@ =~= v@);
    r
}

/// An element-for-element copy of a visibility buffer.
fn clone_flags(v: &Vec<bool>) -> (r: Vec<bool>)
    ensures
        r@ == v@,
{
    let n = v.len();
    let mut r: Vec<bool> = Vec::new();
    let mut i: usize = 0;
    while i < n
        invariant
            i <= n,
            n == v@.len(),
            r@ == v@.subrange(0, i as int),
        decreases n - i,
    {
        r.push(v[i]);
        assert(r@ =~= v@.subrange(0, i + 1 as int));
        i = i + 1;
    }
    assert(r@ =~= v@);
    r
}

} // verus!
