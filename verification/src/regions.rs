use vstd::prelude::*;
use std::collections::HashMap;
use crate::map::{idx_at, lemma_index_cell, Grid, TileType};
use crate::noise::{noise_bucket_of, sample_noise_bucket};
use crate::synthesis::interior_count;

verus! {

broadcast use vstd::std_specs::hash::group_hash_axioms;

/// Column of the `j`-th interior cell in row-major order.
pub open spec fn region_cell_x(width: int, j: int) -> int {
    1 + j % (width - 2)
}

/// Row of the `j`-th interior cell in row-major order.
pub open spec fn region_cell_y(width: int, j: int) -> int {
    1 + j / (width - 2)
}

/// Flat index of the `j`-th interior cell in row-major order.
pub open spec fn region_idx(width: int, j: int) -> int {
    idx_at(width, region_cell_x(width, j), region_cell_y(width, j))
}

/// The tile indices a noise bucket holds after the first `n` interior
/// cells have been scanned: the Floor cells whose quantized noise
/// sample equals `key`, in scan order.
pub open spec fn bucket_members(
    tiles: Seq<TileType>,
    width: int,
    height: int,
    noise_seed: u64,
    key: i32,
    n: int,
) -> Seq<int>
    decreases n,
{
    if n <= 0 {
        Seq::empty()
    } else {
        let prev = bucket_members(tiles, width, height, noise_seed, key, n - 1);
        let x = region_cell_x(width, n - 1);
        let y = region_cell_y(width, n - 1);
        if tiles[idx_at(width, x, y)] == TileType::Floor && noise_bucket_of(noise_seed, x, y) == key as int {
            prev.push(idx_at(width, x, y))
        } else {
            prev
        }
    }
}

/// What a bucket holds after the whole interior has been scanned.
pub open spec fn members_of(tiles: Seq<TileType>, width: int, height: int, noise_seed: u64, key: i32) -> Seq<int> {
    bucket_members(tiles, width, height, noise_seed, key, interior_count(width, height))
}

/// The bucket map is exactly the partition of the grid's Floor tiles
/// by quantized noise value: a key is present precisely when some
/// Floor tile quantizes to it, and it maps to exactly that bucket's
/// members in scan order.
pub open spec fn is_noise_areas_for(
    tiles: Seq<TileType>,
    width: int,
    height: int,
    noise_seed: u64,
    m: Map<i32, Vec<usize>>,
) -> bool {
    &&& forall|k: i32| #[trigger] m.contains_key(k) ==> m[k]@.map_values(|v: usize| v as int)
        == members_of(tiles, width, height, noise_seed, k)
    &&& forall|k: i32| #[trigger] members_of(tiles, width, height, noise_seed, k).len() > 0
        ==> m.contains_key(k)
    &&& forall|k: i32| #[trigger] m.contains_key(k)
        ==> members_of(tiles, width, height, noise_seed, k).len() > 0
}

/// Partition every Floor tile's flat index into a bucket keyed by its
/// quantized spatial-noise sample, scanning the interior row-major.
#[verifier::loop_isolation(false)]
pub fn build_noise_areas(grid: &Grid, noise_seed: u64) -> (areas: HashMap<i32, Vec<usize>>)
    requires
        grid.inv(),
    ensures
        is_noise_areas_for(grid.tiles@, grid.width as int, grid.height as int, noise_seed, areas@),
        forall|xx: int, yy: int| 1 <= xx <= grid.width as int - 2 && 1 <= yy <= grid.height as int - 2
            ==> i32::MIN <= #[trigger] noise_bucket_of(noise_seed, xx, yy) <= i32::MAX,
{
    let ghost w = grid.width as int;
    let ghost h = grid.height as int;
    let ghost tiles0 = grid.tiles@;
    let width = grid.width;
    let height = grid.height;
    let mut areas: HashMap<i32, Vec<usize>> = HashMap::new();
    assert((width - 2) * (height - 2) <= width * height) by (nonlinear_arith)
        requires 4 <= width && 4 <= height;
    let nin = (width - 2) * (height - 2);
    let mut j: usize = 0;
    while j < nin
        invariant
            0 <= j <= nin,
            nin == interior_count(w, h),
            forall|k: i32| #[trigger] areas@.contains_key(k) ==> areas@[k]@.map_values(|v: usize| v as int)
                == bucket_members(tiles0, w, h, noise_seed, k, j as int),
            forall|k: i32| #[trigger] bucket_members(tiles0, w, h, noise_seed, k, j as int).len() > 0
                ==> areas@.contains_key(k),
            forall|k: i32| #[trigger] areas@.contains_key(k)
                ==> bucket_members(tiles0, w, h, noise_seed, k, j as int).len() > 0,
            forall|j2: int| 0 <= j2 < j
                ==> i32::MIN <= #[trigger] noise_bucket_of(noise_seed, region_cell_x(w, j2), region_cell_y(w, j2)) <= i32::MAX,
        decreases nin - j,
    {
        proof {
            lemma_index_cell(w - 2, h - 2, j as int);
        }
        let x = 1 + (j % (width - 2));
        let y = 1 + (j / (width - 2));
        let idx = grid.xy_idx(x, y);
        assert(x as int == region_cell_x(w, j as int) && y as int == region_cell_y(w, j as int));
        let key = sample_noise_bucket(noise_seed, x as i32, y as i32);
        assert(i32::MIN <= noise_bucket_of(noise_seed, region_cell_x(w, j as int), region_cell_y(w, j as int)) <= i32::MAX);
        if grid.tiles[idx] == TileType::Floor {
            if areas.contains_key(&key) {
                let mut v = areas.remove(&key).unwrap();
                let ghost vold = v@;
                v.push(idx);
                assert(v@.map_values(|q: usize| q as int)
                    =~= vold.map_values(|q: usize| q as int).push(idx as int));
                areas.insert(key, v);
            } else {
                let mut v: Vec<usize> = Vec::new();
                v.push(idx);
                proof {
                    assert(bucket_members(tiles0, w, h, noise_seed, key, j as int) =~= Seq::<int>::empty());
                    assert(v@.map_values(|q: usize| q as int) =~= Seq::<int>::empty().push(idx as int));
                }
                areas.insert(key, v);
            }
            proof {
                let jj = j as int;
                assert forall|k: i32| k != key implies bucket_members(tiles0, w, h, noise_seed, k, jj + 1)
                    == bucket_members(tiles0, w, h, noise_seed, k, jj) by {}
                assert(bucket_members(tiles0, w, h, noise_seed, key, jj + 1)
                    == bucket_members(tiles0, w, h, noise_seed, key, jj).push(idx as int));
                assert forall|k: i32| #[trigger] bucket_members(tiles0, w, h, noise_seed, k, jj + 1).len() > 0
                    implies areas@.contains_key(k) by {
                    if k != key {
                        assert(bucket_members(tiles0, w, h, noise_seed, k, jj).len() > 0);
                    }
                }
            }
        } else {
            proof {
                let jj = j as int;
                assert forall|k: i32| bucket_members(tiles0, w, h, noise_seed, k, jj + 1)
                    == bucket_members(tiles0, w, h, noise_seed, k, jj) by {}
            }
        }
        j = j + 1;
        proof {
            let jj = j as int;
            assert forall|k: i32| #[trigger] bucket_members(tiles0, w, h, noise_seed, k, jj).len() > 0
                implies areas@.contains_key(k) by {
                if bucket_members(tiles0, w, h, noise_seed, k, jj - 1).len() > 0 {
                } else {
                    assert(k == key);
                }
            }
            assert forall|k: i32| #[trigger] areas@.contains_key(k)
                implies bucket_members(tiles0, w, h, noise_seed, k, jj).len() > 0 by {
                if bucket_members(tiles0, w, h, noise_seed, k, jj - 1).len() > 0 {
                }
            }
            assert forall|k: i32| #[trigger] areas@.contains_key(k) implies areas@[k]@.map_values(|v2: usize| v2 as int)
                == bucket_members(tiles0, w, h, noise_seed, k, jj) by {}
        }
    }
    proof {
        assert forall|xx: int, yy: int| 1 <= xx <= w - 2 && 1 <= yy <= h - 2
            implies i32::MIN <= #[trigger] noise_bucket_of(noise_seed, xx, yy) <= i32::MAX by {
            let j2 = (yy - 1) * (w - 2) + (xx - 1);
            assert(0 <= j2 < nin) by (nonlinear_arith)
                requires
                    4 <= w && 4 <= h && 1 <= xx <= w - 2 && 1 <= yy <= h - 2
                        && j2 == (yy - 1) * (w - 2) + (xx - 1) && nin == (w - 2) * (h - 2);
            vstd::arithmetic::div_mod::lemma_fundamental_div_mod_converse(j2, w - 2, yy - 1, xx - 1);
            assert(region_cell_x(w, j2) == xx && region_cell_y(w, j2) == yy);
            assert(i32::MIN <= noise_bucket_of(noise_seed, region_cell_x(w, j2), region_cell_y(w, j2)) <= i32::MAX);
        }
    }
    areas
}

/// A bucket holds an index exactly when some already-scanned interior
/// cell is a Floor tile with that index and that noise key.
pub proof fn lemma_bucket_members_character(
    tiles: Seq<TileType>,
    width: int,
    height: int,
    noise_seed: u64,
    key: i32,
    n: int,
    v: int,
)
    requires
        4 <= width,
    ensures
        bucket_members(tiles, width, height, noise_seed, key, n).contains(v) <==> (exists|j: int|
            0 <= j < n && v == #[trigger] region_idx(width, j)
                && tiles[region_idx(width, j)] == TileType::Floor
                && noise_bucket_of(noise_seed, region_cell_x(width, j), region_cell_y(width, j)) == key as int),
    decreases n,
{
    if n <= 0 {
    } else {
        lemma_bucket_members_character(tiles, width, height, noise_seed, key, n - 1, v);
        let prev = bucket_members(tiles, width, height, noise_seed, key, n - 1);
        let cur = bucket_members(tiles, width, height, noise_seed, key, n);
        let x = region_cell_x(width, n - 1);
        let y = region_cell_y(width, n - 1);
        if tiles[idx_at(width, x, y)] == TileType::Floor && noise_bucket_of(noise_seed, x, y) == key as int {
            assert(cur == prev.push(region_idx(width, n - 1)));
            if cur.contains(v) {
                let i = choose|i: int| 0 <= i < cur.len() && cur[i] == v;
                if i < prev.len() {
                    assert(prev[i] == v);
                    assert(prev.contains(v));
                } else {
                    assert(v == region_idx(width, n - 1));
                }
            }
            if prev.contains(v) {
                let i = choose|i: int| 0 <= i < prev.len() && prev[i] == v;
                assert(cur[i] == v);
                assert(cur.contains(v));
            }
            assert(cur[cur.len() - 1] == region_idx(width, n - 1));
            assert(cur.contains(region_idx(width, n - 1)));
        }
    }
}

/// Two scan steps that name the same in-bounds flat index are the
/// same step's cell.
proof fn lemma_region_idx_inverse(width: int, height: int, j: int, x: int, y: int)
    requires
        4 <= width,
        0 <= j,
        1 <= x < width,
        0 <= y,
        region_idx(width, j) == idx_at(width, x, y),
    ensures
        region_cell_x(width, j) == x,
        region_cell_y(width, j) == y,
{
    vstd::arithmetic::div_mod::lemma_mod_division_less_than_divisor(j, width - 2);
    let xj = region_cell_x(width, j);
    let yj = region_cell_y(width, j);
    assert(0 <= xj < width);
    assert(0 <= yj);
    vstd::arithmetic::div_mod::lemma_fundamental_div_mod_converse(yj * width + xj, width, yj, xj);
    vstd::arithmetic::div_mod::lemma_fundamental_div_mod_converse(y * width + x, width, y, x);
}

/// The noise buckets partition the Floor tiles: an interior Floor
/// tile's index lies in the bucket its quantized noise sample names
/// and in no other bucket, and a non-Floor tile's index lies in no
/// bucket at all.
pub proof fn lemma_noise_areas_partition(
    tiles: Seq<TileType>,
    width: int,
    height: int,
    noise_seed: u64,
    m: Map<i32, Vec<usize>>,
    x: int,
    y: int,
    key: i32,
)
    requires
        4 <= width,
        4 <= height,
        tiles.len() == width * height,
        is_noise_areas_for(tiles, width, height, noise_seed, m),
        1 <= x <= width - 2,
        1 <= y <= height - 2,
        key as int == noise_bucket_of(noise_seed, x, y),
    ensures
        tiles[idx_at(width, x, y)] == TileType::Floor ==> m.contains_key(key)
            && members_of(tiles, width, height, noise_seed, key).contains(idx_at(width, x, y)),
        forall|k2: i32| k2 != key ==> !members_of(tiles, width, height, noise_seed, k2).contains(idx_at(width, x, y)),
        tiles[idx_at(width, x, y)] != TileType::Floor ==> forall|k2: i32|
            !members_of(tiles, width, height, noise_seed, k2).contains(idx_at(width, x, y)),
{
    let n = interior_count(width, height);
    let idx = idx_at(width, x, y);
    let j0 = (y - 1) * (width - 2) + (x - 1);
    assert(0 <= j0 < n) by (nonlinear_arith)
        requires 4 <= width && 4 <= height && 1 <= x <= width - 2 && 1 <= y <= height - 2
            && j0 == (y - 1) * (width - 2) + (x - 1) && n == (width - 2) * (height - 2);
    vstd::arithmetic::div_mod::lemma_fundamental_div_mod_converse(j0, width - 2, y - 1, x - 1);
    assert(region_cell_x(width, j0) == x && region_cell_y(width, j0) == y);
    crate::map::lemma_cell_index(width, height, x, y);
    if tiles[idx] == TileType::Floor {
        lemma_bucket_members_character(tiles, width, height, noise_seed, key, n, idx);
        assert(idx == region_idx(width, j0)
            && tiles[region_idx(width, j0)] == TileType::Floor
            && noise_bucket_of(noise_seed, region_cell_x(width, j0), region_cell_y(width, j0)) == key as int);
        assert(members_of(tiles, width, height, noise_seed, key).contains(idx));
    }
    assert forall|k2: i32| k2 != key implies !members_of(tiles, width, height, noise_seed, k2).contains(idx) by {
        lemma_bucket_members_character(tiles, width, height, noise_seed, k2, n, idx);
        if members_of(tiles, width, height, noise_seed, k2).contains(idx) {
            let j = choose|j: int| 0 <= j < n && idx == #[trigger] region_idx(width, j)
                && tiles[region_idx(width, j)] == TileType::Floor
                && noise_bucket_of(noise_seed, region_cell_x(width, j), region_cell_y(width, j)) == k2 as int;
            lemma_region_idx_inverse(width, height, j, x, y);
        }
    }
    if tiles[idx] != TileType::Floor {
        assert forall|k2: i32| !members_of(tiles, width, height, noise_seed, k2).contains(idx) by {
            lemma_bucket_members_character(tiles, width, height, noise_seed, k2, n, idx);
            if members_of(tiles, width, height, noise_seed, k2).contains(idx) {
                let j = choose|j: int| 0 <= j < n && idx == #[trigger] region_idx(width, j)
                    && tiles[region_idx(width, j)] == TileType::Floor
                    && noise_bucket_of(noise_seed, region_cell_x(width, j), region_cell_y(width, j)) == k2 as int;
            }
        }
    }
}

/// Full coverage: an interior Floor tile of a partitioned grid lies
/// in some bucket of the map — the one its quantized noise sample
/// names. With `lemma_noise_areas_partition`, the buckets together
/// hold exactly the Floor tiles, each exactly once.
pub proof fn lemma_noise_areas_cover(
    tiles: Seq<TileType>,
    width: int,
    height: int,
    noise_seed: u64,
    m: Map<i32, Vec<usize>>,
    x: int,
    y: int,
)
    requires
        4 <= width,
        4 <= height,
        tiles.len() == width * height,
        is_noise_areas_for(tiles, width, height, noise_seed, m),
        1 <= x <= width - 2,
        1 <= y <= height - 2,
        tiles[idx_at(width, x, y)] == TileType::Floor,
        i32::MIN <= noise_bucket_of(noise_seed, x, y) <= i32::MAX,
    ensures
        exists|k: i32| #[trigger] m.contains_key(k)
            && m[k]@.map_values(|v: usize| v as int).contains(idx_at(width, x, y)),
{
    let key = noise_bucket_of(noise_seed, x, y) as i32;
    lemma_noise_areas_partition(tiles, width, height, noise_seed, m, x, y, key);
    assert(m.contains_key(key)
        && m[key]@.map_values(|v: usize| v as int).contains(idx_at(width, x, y)));
}

} // verus!
