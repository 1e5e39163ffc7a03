use vstd::prelude::*;

verus! {

/// What `rltk::RandomNumberGenerator::roll_dice` returns: the
/// generator is a xorshift stream built purely from its seed, so the
/// value of a roll is a function of the seed, of the arguments of
/// every roll drawn before this one (recorded as `(count, die)`
/// pairs), and of this roll's own `(count, die)` arguments.
pub uninterp spec fn roll_of(seed: u64, trace: Seq<(int, int)>, n: int, die: int) -> int;

/// Declares `rltk::RandomNumberGenerator` so it can stand in a field;
/// the value is opaque here and is only reached through the items
/// below.
#[verifier::external_type_specification]
#[verifier::external_body]
pub struct ExRandomNumberGenerator(rltk::RandomNumberGenerator);

/// Relies on `rltk::RandomNumberGenerator::seeded`: builds the
/// xorshift generator deterministically from the given seed alone.
#[verifier::external_body]
fn raw_seeded(seed: u64) -> rltk::RandomNumberGenerator {
    rltk::RandomNumberGenerator::seeded(seed)
}

/// A dice roller backed by `rltk::RandomNumberGenerator`, carrying a
/// ghost record of the seed it was built from and of the arguments of
/// every roll drawn so far. The only constructor seeds the generator
/// from `gseed`, and every roll appends its arguments to `gtrace`, so
/// the inner generator's state is always the one reached from
/// `gseed` by exactly the rolls in `gtrace`.
pub struct DiceRng {
    inner: rltk::RandomNumberGenerator,
    gseed: Ghost<u64>,
    gtrace: Ghost<Seq<(int, int)>>,
}

impl DiceRng {
    /// The seed this roller was built from.
    pub closed spec fn seed(self) -> u64 {
        self.gseed@
    }

    /// The `(count, die)` arguments of the rolls drawn so far.
    pub closed spec fn trace(self) -> Seq<(int, int)> {
        self.gtrace@
    }

    /// A fresh roller for the given seed.
    pub fn seeded(seed: u64) -> (r: DiceRng)
        ensures
            r.seed() == seed,
            r.trace() == Seq::<(int, int)>::empty(),
    {
        DiceRng { inner: raw_seeded(seed), gseed: Ghost(seed), gtrace: Ghost(Seq::empty()) }
    }

    /// Relies on `rltk::RandomNumberGenerator::roll_dice`: the sum of
    /// `n` draws uniform in `[1, die]`, so the result lies in
    /// `[n, n * die]`; the xorshift stream makes it a pure function
    /// of the seed and of the rolls drawn before.
    #[verifier::external_body]
    pub fn roll_dice(&mut self, n: i32, die: i32) -> (r: i32)
        requires
            1 <= n,
            1 <= die,
            die < i32::MAX,
            n * die <= i32::MAX,
        ensures
            final(self).seed() == old(self).seed(),
            final(self).trace() == old(self).trace().push((n as int, die as int)),
            r == roll_of(old(self).seed(), old(self).trace(), n as int, die as int),
            n <= r <= n * die,
    {
        self.inner.roll_dice(n, die)
    }
}

} // verus!
