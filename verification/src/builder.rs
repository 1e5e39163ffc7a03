use vstd::prelude::*;
use std::collections::HashMap;
use crate::landmarks::{exit_scan_idx, exit_tiles, find_start, first_exit_from, lemma_first_exit_from, place_exit, start_scan_hit};
use crate::map::{idx_at, in_grid, interior, lemma_cell_index, Grid, Position, TileType};
use crate::noise::noise_bucket_of;
use crate::regions::{build_noise_areas, is_noise_areas_for, members_of};
use crate::rng::{roll_of, DiceRng};
use crate::synthesis::{interior_count, seed_pass, seeded_tiles, smooth_pass, smoothed_n, smoothed_tile, smoothed_tiles, uniform_trace};

verus! {

/// Whether generation playback snapshots are recorded.
pub const SHOW_MAPGEN_VISUALIZER: bool = true;

/// How many smoothing passes a synthesis run applies.
pub const SMOOTHING_PASSES: usize = 15;

/// How a generation run fails: the start-position scan walked past
/// the grid because synthesis left no Floor tile on its path. The
/// caller must retry with another seed rather than use the map.
#[derive(Clone, Copy, PartialEq, Eq, Structural, Debug)]
pub enum MapGenError {
    OutOfBounds,
}

/// The grid after the seed pass and `p` smoothing passes of a run
/// started from `seed`.
pub open spec fn synth_tiles(seed: u64, width: int, height: int, p: int) -> Seq<TileType> {
    smoothed_n(seeded_tiles(seed, width, height), width, height, p)
}

/// The finished cave: the seed pass followed by all smoothing passes.
pub open spec fn final_cave(seed: u64, width: int, height: int) -> Seq<TileType> {
    synth_tiles(seed, width, height, SMOOTHING_PASSES as int)
}

/// The edge rolled for the exit: one `[1, 4]` roll right after the
/// seed pass's draws.
pub open spec fn edge_roll(seed: u64, width: int, height: int) -> int {
    roll_of(seed, uniform_trace(interior_count(width, height)), 1, 4)
}

/// The seed handed to the spatial-noise partitioner: one `[1, 65536]`
/// roll after the edge roll.
pub open spec fn noise_seed_of(seed: u64, width: int, height: int) -> int {
    roll_of(seed, uniform_trace(interior_count(width, height)).push((1int, 4int)), 1, 65536)
}

/// The finished grid: the cave with the exit placed on the rolled
/// edge.
pub open spec fn final_tiles(seed: u64, width: int, height: int) -> Seq<TileType> {
    exit_tiles(final_cave(seed, width, height), edge_roll(seed, width, height), width, height)
}

/// Whether the exit placement of a run from `seed` lands on flat
/// index `i`: the first Floor tile in the rolled edge's scan order is
/// at `i`.
pub open spec fn exit_lands_on(seed: u64, width: int, height: int, i: int) -> bool {
    match first_exit_from(final_cave(seed, width, height), edge_roll(seed, width, height), width, height, 0) {
        Some(t) => exit_scan_idx(edge_roll(seed, width, height), width, height, t) == i,
        None => false,
    }
}

/// Whether the finished cave holds a Floor tile on the start scan's
/// path, so that a run from this seed succeeds.
pub open spec fn start_exists(seed: u64, width: int, height: int) -> bool {
    exists|yy: int| height / 2 <= yy < height && start_scan_hit(final_cave(seed, width, height), width, height, yy)
}

/// `p` is the position the start scan returns on `tiles`: the first
/// Floor tile at or below the center of the center column.
pub open spec fn is_start_for(tiles: Seq<TileType>, width: int, height: int, p: Position) -> bool {
    &&& p.x as int == width / 2
    &&& height / 2 <= p.y as int
    &&& (p.y as int) < height
    &&& start_scan_hit(tiles, width, height, p.y as int)
    &&& forall|yy: int| height / 2 <= yy < p.y as int ==> !start_scan_hit(tiles, width, height, yy)
}

/// The cave synthesizer: seeds a grid with wall/floor noise, smooths
/// it into caves, places the start and the exit, and partitions the
/// floor into spawn regions.
pub struct CellularAutomataBuilder {
    pub map: Grid,
    pub starting_position: Position,
    pub depth: i32,
    pub history: Vec<Grid>,
    pub noise_areas: HashMap<i32, Vec<usize>>,
}

impl CellularAutomataBuilder {
    /// A fresh builder for one level of the given dimensions and
    /// depth.
    pub fn new(width: usize, height: usize, new_depth: i32) -> (b: CellularAutomataBuilder)
        requires
            4 <= width,
            4 <= height,
            width <= i32::MAX as usize,
            height <= i32::MAX as usize,
            width * height <= usize::MAX,
        ensures
            b.map.inv(),
            b.map.width == width,
            b.map.height == height,
            b.map.depth == new_depth,
            b.depth == new_depth,
            b.history@.len() == 0,
            b.noise_areas@ == Map::<i32, Vec<usize>>::empty(),
            b.starting_position == (Position { x: 0, y: 0 }),
            forall|i: int| 0 <= i < width * height ==> b.map.tiles@[i] == TileType::Wall,
            forall|i: int| 0 <= i < width * height ==> b.map.revealed_tiles@[i] == false,
    {
        CellularAutomataBuilder {
            map: Grid::new(width, height, new_depth),
            starting_position: Position { x: 0, y: 0 },
            depth: new_depth,
            history: Vec::new(),
            noise_areas: HashMap::new(),
        }
    }

    /// Record one playback snapshot: a deep copy of the live grid
    /// with every cell revealed. A no-op when playback is disabled.
    pub fn take_snapshot(&mut self)
        ensures
            final(self).map == old(self).map,
            final(self).depth == old(self).depth,
            final(self).starting_position == old(self).starting_position,
            final(self).noise_areas == old(self).noise_areas,
            SHOW_MAPGEN_VISUALIZER ==> {
                &&& final(self).history@.len() == old(self).history@.len() + 1
                &&& forall|i: int| 0 <= i < old(self).history@.len()
                    ==> final(self).history@[i] == old(self).history@[i]
                &&& final(self).history@.last().tiles@ == old(self).map.tiles@
                &&& final(self).history@.last().width == old(self).map.width
                &&& final(self).history@.last().height == old(self).map.height
                &&& final(self).history@.last().depth == old(self).map.depth
                &&& final(self).history@.last().revealed_tiles@.len() == old(self).map.revealed_tiles@.len()
                &&& forall|q: int| 0 <= q < final(self).history@.last().revealed_tiles@.len()
                    ==> final(self).history@.last().revealed_tiles@[q] == true
            },
            !SHOW_MAPGEN_VISUALIZER ==> final(self).history == old(self).history,
    {
        if SHOW_MAPGEN_VISUALIZER {
            let snapshot = self.map.revealed_snapshot();
            self.history.push(snapshot);
        }
    }

    /// Run the whole pipeline once from `seed`: noise seed pass,
    /// fixed-count smoothing, start placement, exit placement, and
    /// floor partitioning, with one snapshot after the seed pass and
    /// one after every smoothing pass.
    #[verifier::loop_isolation(false)]
    pub fn build_map(&mut self, seed: u64) -> (r: Result<(), MapGenError>)
        requires
            old(self).map.inv(),
        ensures
            final(self).map.inv(),
            final(self).depth == old(self).depth,
            final(self).map.width == old(self).map.width,
            final(self).map.height == old(self).map.height,
            final(self).map.depth == old(self).map.depth,
            ({
                let w = old(self).map.width as int;
                let h = old(self).map.height as int;
                &&& (r is Ok <==> start_exists(seed, w, h))
                &&& (r is Ok ==> {
                    &&& final(self).map.tiles@ == final_tiles(seed, w, h)
                    &&& is_start_for(final_cave(seed, w, h), w, h, final(self).starting_position)
                    &&& ({
                        let sidx = idx_at(w, final(self).starting_position.x as int,
                            final(self).starting_position.y as int);
                        final(self).map.tiles@[sidx] == (if exit_lands_on(seed, w, h, sidx) {
                            TileType::DownStairs
                        } else {
                            TileType::Floor
                        })
                    })
                    &&& is_noise_areas_for(final_tiles(seed, w, h), w, h,
                        noise_seed_of(seed, w, h) as u64, final(self).noise_areas@)
                    &&& forall|xx: int, yy: int| 1 <= xx <= w - 2 && 1 <= yy <= h - 2
                        ==> i32::MIN <= #[trigger] noise_bucket_of(noise_seed_of(seed, w, h) as u64, xx, yy) <= i32::MAX
                })
                &&& (r is Err ==> {
                    &&& final(self).map.tiles@ == final_cave(seed, w, h)
                    &&& final(self).noise_areas@ == Map::<i32, Vec<usize>>::empty()
                    &&& final(self).starting_position == (Position { x: 0, y: 0 })
                })
                &&& final(self).history@.len() == (if SHOW_MAPGEN_VISUALIZER { 16int } else { 0int })
                &&& forall|q: int| 0 <= q < final(self).history@.len() ==> {
                    &&& (#[trigger] final(self).history@[q]).tiles@ == synth_tiles(seed, w, h, q)
                    &&& final(self).history@[q].width == old(self).map.width
                    &&& final(self).history@[q].height == old(self).map.height
                    &&& final(self).history@[q].depth == old(self).map.depth
                    &&& final(self).history@[q].revealed_tiles@.len() == w * h
                    &&& forall|c: int| 0 <= c < w * h ==> final(self).history@[q].revealed_tiles@[c] == true
                }
            }),
    {
        let ghost w = old(self).map.width as int;
        let ghost h = old(self).map.height as int;
        let width = self.map.width;
        let height = self.map.height;
        let depth = self.map.depth;
        self.map = Grid::new(width, height, depth);
        self.history = Vec::new();
        self.noise_areas = HashMap::new();
        self.starting_position = Position { x: 0, y: 0 };
        let mut rng = DiceRng::seeded(seed);

        seed_pass(&mut self.map, &mut rng);
        self.take_snapshot();
        assert(self.map.tiles@ == synth_tiles(seed, w, h, 0));

        let mut i: usize = 0;
        while i < SMOOTHING_PASSES
            invariant
                i <= SMOOTHING_PASSES,
                self.map.inv(),
                self.map.width == old(self).map.width,
                self.map.height == old(self).map.height,
                self.map.depth == old(self).map.depth,
                self.depth == old(self).depth,
                self.noise_areas@ == Map::<i32, Vec<usize>>::empty(),
                self.starting_position == (Position { x: 0, y: 0 }),
                self.map.tiles@ == synth_tiles(seed, w, h, i as int),
                self.history@.len() == (if SHOW_MAPGEN_VISUALIZER { i + 1 } else { 0int }),
                forall|q: int| 0 <= q < self.history@.len() ==> {
                    &&& (#[trigger] self.history@[q]).tiles@ == synth_tiles(seed, w, h, q)
                    &&& self.history@[q].width == old(self).map.width
                    &&& self.history@[q].height == old(self).map.height
                    &&& self.history@[q].depth == old(self).map.depth
                    &&& self.history@[q].revealed_tiles@.len() == w * h
                    &&& forall|c: int| 0 <= c < w * h ==> self.history@[q].revealed_tiles@[c] == true
                },
            decreases SMOOTHING_PASSES - i,
        {
            smooth_pass(&mut self.map);
            proof {
                assert(synth_tiles(seed, w, h, i as int + 1)
                    == smoothed_tiles(synth_tiles(seed, w, h, i as int), w, h));
            }
            self.take_snapshot();
            i = i + 1;
        }
        assert(self.map.tiles@ == final_cave(seed, w, h));

        match find_start(&self.map) {
            Some(p) => {
                self.starting_position = p;
                assert(start_exists(seed, w, h));
            },
            None => {
                assert(!start_exists(seed, w, h));
                return Err(MapGenError::OutOfBounds);
            },
        }

        let edge = rng.roll_dice(1, 4);
        assert(edge as int == edge_roll(seed, w, h));
        let _placed = place_exit(&mut self.map, edge);
        assert(self.map.tiles@ == final_tiles(seed, w, h));
        proof {
            let cave = final_cave(seed, w, h);
            let p = self.starting_position;
            let sidx = idx_at(w, p.x as int, p.y as int);
            lemma_cell_index(w, h, p.x as int, p.y as int);
            lemma_synth_len(seed, w, h, SMOOTHING_PASSES as int);
            lemma_first_exit_from(cave, edge as int, w, h, 0);
            assert(cave[sidx] == TileType::Floor);
            assert(self.map.tiles@[sidx] == (if exit_lands_on(seed, w, h, sidx) {
                TileType::DownStairs
            } else {
                TileType::Floor
            }));
        }

        let noise_roll = rng.roll_dice(1, 65536);
        let noise_seed = noise_roll as u64;
        assert(noise_seed == noise_seed_of(seed, w, h) as u64);
        self.noise_areas = build_noise_areas(&self.map, noise_seed);
        Ok(())
    }

    /// A deep copy of the finished grid.
    pub fn get_map(&self) -> (m: Grid)
        ensures
            m.width == self.map.width,
            m.height == self.map.height,
            m.depth == self.map.depth,
            m.tiles@ == self.map.tiles@,
            m.revealed_tiles@ == self.map.revealed_tiles@,
    {
        self.map.clone_map()
    }

    /// The start position the last run placed.
    pub fn get_starting_position(&self) -> (p: Position)
        ensures
            p == self.starting_position,
    {
        self.starting_position
    }

    /// The ordered playback snapshots of the last run; empty when
    /// playback is disabled.
    pub fn get_snapshot_history(&self) -> (hist: &Vec<Grid>)
        ensures
            hist@ == self.history@,
    {
        &self.history
    }

    /// The spawn regions of the last run: floor-tile indices bucketed
    /// by quantized spatial noise, for the spawn callback.
    pub fn get_noise_areas(&self) -> (areas: &HashMap<i32, Vec<usize>>)
        ensures
            areas@ == self.noise_areas@,
    {
        &self.noise_areas
    }
}

/// The border of a generated grid is all Wall: synthesis never writes
/// a border cell and the exit lands only on what was Floor.
pub proof fn lemma_border_walls(seed: u64, width: int, height: int, x: int, y: int)
    requires
        4 <= width,
        4 <= height,
        in_grid(width, height, x, y),
        !interior(width, height, x, y),
    ensures
        final_tiles(seed, width, height)[idx_at(width, x, y)] == TileType::Wall,
{
    lemma_cell_index(width, height, x, y);
    lemma_synth_border(seed, width, height, SMOOTHING_PASSES as int, x, y);
    lemma_synth_len(seed, width, height, SMOOTHING_PASSES as int);
    let cave = final_cave(seed, width, height);
    let e = edge_roll(seed, width, height);
    lemma_first_exit_from(cave, e, width, height, 0);
    match first_exit_from(cave, e, width, height, 0) {
        Some(t) => {
            assert(cave[exit_scan_idx(e, width, height, t)] == TileType::Floor);
            assert(idx_at(width, x, y) != exit_scan_idx(e, width, height, t));
        },
        None => {},
    }
}

/// Smoothing preserves the buffer length.
pub proof fn lemma_synth_len(seed: u64, width: int, height: int, p: int)
    requires
        1 <= width,
        1 <= height,
    ensures
        synth_tiles(seed, width, height, p).len() == width * height,
    decreases p,
{
    if p > 0 {
        lemma_synth_len(seed, width, height, p - 1);
    }
}

/// No synthesis pass ever rewrites a border cell: it stays the Wall
/// the seed pass left.
pub proof fn lemma_synth_border(seed: u64, width: int, height: int, p: int, x: int, y: int)
    requires
        4 <= width,
        4 <= height,
        in_grid(width, height, x, y),
        !interior(width, height, x, y),
    ensures
        synth_tiles(seed, width, height, p)[idx_at(width, x, y)] == TileType::Wall,
    decreases p,
{
    lemma_cell_index(width, height, x, y);
    lemma_synth_len(seed, width, height, p);
    if p > 0 {
        lemma_synth_border(seed, width, height, p - 1, x, y);
        lemma_synth_len(seed, width, height, p - 1);
        assert(smoothed_tile(synth_tiles(seed, width, height, p - 1), width, height, x, y)
            == synth_tiles(seed, width, height, p - 1)[idx_at(width, x, y)]);
    }
}

/// Two runs with the same seed and the same dimensions produce the
/// same finished grid, the same start position, and the same noise
/// areas.
pub proof fn lemma_determinism(
    seed: u64,
    width: int,
    height: int,
    t1: Seq<TileType>,
    t2: Seq<TileType>,
    p1: Position,
    p2: Position,
    m1: Map<i32, Vec<usize>>,
    m2: Map<i32, Vec<usize>>,
)
    requires
        t1 == final_tiles(seed, width, height),
        t2 == final_tiles(seed, width, height),
        is_start_for(final_cave(seed, width, height), width, height, p1),
        is_start_for(final_cave(seed, width, height), width, height, p2),
        is_noise_areas_for(final_tiles(seed, width, height), width, height,
            noise_seed_of(seed, width, height) as u64, m1),
        is_noise_areas_for(final_tiles(seed, width, height), width, height,
            noise_seed_of(seed, width, height) as u64, m2),
    ensures
        t1 == t2,
        p1 == p2,
        m1.dom() == m2.dom(),
        forall|k: i32| #[trigger] m1.contains_key(k) ==> m1[k]@ == m2[k]@,
{
    let cave = final_cave(seed, width, height);
    if p1.y < p2.y {
        assert(!start_scan_hit(cave, width, height, p1.y as int));
    }
    if p2.y < p1.y {
        assert(!start_scan_hit(cave, width, height, p2.y as int));
    }
    assert(p1 == p2);
    let nseed = noise_seed_of(seed, width, height) as u64;
    assert forall|k: i32| #[trigger] m1.contains_key(k) implies m2.contains_key(k) by {
        assert(members_of(t1, width, height, nseed, k).len() > 0);
    }
    assert forall|k: i32| #[trigger] m2.contains_key(k) implies m1.contains_key(k) by {
        assert(members_of(t1, width, height, nseed, k).len() > 0);
    }
    assert(m1.dom() =~= m2.dom());
    assert forall|k: i32| #[trigger] m1.contains_key(k) implies m1[k]@ == m2[k]@ by {
        let s1 = m1[k]@.map_values(|v: usize| v as int);
        let s2 = m2[k]@.map_values(|v: usize| v as int);
        assert(s1 == s2);
        assert forall|q: int| 0 <= q < m1[k]@.len() implies m1[k]@[q] == m2[k]@[q] by {
            assert(s1[q] == m1[k]@[q] as int);
            assert(s2[q] == m2[k]@[q] as int);
        }
        assert(m1[k]@ =~= m2[k]@);
    }
}

} // verus!
