use vstd::prelude::*;

verus! {

/// What the quantized spatial-noise sample is at a grid coordinate:
/// `rltk::FastNoise` cellular noise (frequency 0.08, Euclidean cell
/// distance) sampled at `(x, y)`, scaled by 10240 and truncated to an
/// integer. The noise tables are built purely from the seed and a
/// sample reads them without mutation, so this is a function of the
/// seed and the coordinates alone.
pub uninterp spec fn noise_bucket_of(noise_seed: u64, x: int, y: int) -> int;

/// Relies on `rltk::FastNoise` (`seeded`, `set_noise_type`,
/// `set_frequency`, `set_cellular_distance_function`, `get_noise`):
/// cellular noise is a deterministic function of the seed and the
/// sample coordinates.
#[verifier::external_body]
pub(crate) fn sample_noise_bucket(noise_seed: u64, x: i32, y: i32) -> (r: i32)
    ensures
        r == noise_bucket_of(noise_seed, x as int, y as int),
{
    // Verus gives floating point no meaning, so this trusted body
    // builds the frequency and scale constants in parameter positions
    // that fix their type without float syntax.
    let mut noise = rltk::FastNoise::seeded(noise_seed);
    noise.set_noise_type(rltk::NoiseType::Cellular);
    noise.set_frequency("0.08".parse().unwrap());
    noise.set_cellular_distance_function(rltk::CellularDistanceFunction::Euclidean);
    let sample = noise.get_noise(x as _, y as _);
    sample.mul_add(10240 as _, 0 as _) as i32
}

} // verus!
