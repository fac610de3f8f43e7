use vstd::prelude::*;

use rand::distributions::Distribution;

verus! {

/// Settings for the synthetic input: either a literal sequence used
/// verbatim, or a length, a half-open value range and an optional seed.
pub struct DataGeneratorConfig {
    length: usize,
    range: (usize, usize),
    seed: Option<u64>,
    seed_arr: Option<Vec<u32>>,
}

impl DataGeneratorConfig {
    /// The requested element count.
    pub closed spec fn spec_length(&self) -> usize {
        self.length
    }

    /// The half-open sampling range.
    pub closed spec fn spec_range(&self) -> (usize, usize) {
        self.range
    }

    /// The seed, when the stream is to be reproducible.
    pub closed spec fn spec_seed(&self) -> Option<u64> {
        self.seed
    }

    /// The literal values, when some were supplied.
    pub closed spec fn spec_seed_arr(&self) -> Option<Seq<u32>> {
        match self.seed_arr {
            Some(v) => Some(v@),
            None => None,
        }
    }

    /// A generator can work with this: either literal values, or a
    /// non-empty range whose upper bound fits the value width.
    pub open spec fn wf(&self) -> bool {
        self.spec_seed_arr() is None ==> self.spec_range().0 < self.spec_range().1
            && self.spec_range().1 <= u32::MAX
    }

    pub fn new(length: usize, range: (usize, usize), seed: Option<u64>) -> (c: DataGeneratorConfig)
        ensures
            c.spec_length() == length,
            c.spec_range() == range,
            c.spec_seed() == seed,
            c.spec_seed_arr() is None,
    {
        DataGeneratorConfig { length, range, seed, seed_arr: None }
    }

    pub fn new_with_seed_arr(seed_arr: Vec<u32>) -> (c: DataGeneratorConfig)
        ensures
            c.spec_length() == seed_arr@.len(),
            c.spec_range() == (0usize, 0usize),
            c.spec_seed() is None,
            c.spec_seed_arr() == Some(seed_arr@),
    {
        DataGeneratorConfig {
            length: seed_arr.len(),
            range: (0, 0),
            seed: None,
            seed_arr: Some(seed_arr),
        }
    }
}

#[verifier::external_type_specification]
#[verifier::external_body]
pub struct ExStdRng(rand::rngs::StdRng);

/// Relies on `rand::rngs::StdRng` as a `SeedableRng`: `seed_from_u64` builds
/// the generator deterministically from the seed.
#[verifier::external_body]
fn seed_rng(seed: u64) -> rand::rngs::StdRng {
    <rand::rngs::StdRng as rand::SeedableRng>::seed_from_u64(seed)
}

/// Relies on `rand::thread_rng` and `RngCore::next_u64`: one draw of fresh
/// entropy, used only when no seed was supplied.
#[verifier::external_body]
fn entropy_seed() -> u64 {
    rand::RngCore::next_u64(&mut rand::thread_rng())
}

/// Relies on `rand::distributions::Uniform`: `Uniform::from(lo..hi)` then
/// `sample` draws uniformly from the half-open range `[lo, hi)`, and
/// `Uniform::from` panics on an empty range, which the precondition rules
/// out.
#[verifier::external_body]
fn sample_range(rng: &mut rand::rngs::StdRng, lo: usize, hi: usize) -> (r: usize)
    requires
        lo < hi,
    ensures
        lo <= r < hi,
{
    rand::distributions::Uniform::from(lo..hi).sample(rng)
}

/// Produces initial sequences: literal values verbatim, or a pseudo-random
/// stream that is deterministic for a given seed.
pub struct DataGenerator {
    conf: DataGeneratorConfig,
    rng: rand::rngs::StdRng,
}

impl DataGenerator {
    /// The configuration this generator draws from.
    pub closed spec fn spec_conf(&self) -> DataGeneratorConfig {
        self.conf
    }

    pub fn new(conf: DataGeneratorConfig) -> (g: DataGenerator)
        ensures
            g.spec_conf() == conf,
    {
        let rng = match conf.seed {
            Some(s) => seed_rng(s),
            None => {
                let s = entropy_seed();
                seed_rng(s)
            },
        };
        DataGenerator { conf, rng }
    }

    /// The initial sequence: the literal values verbatim when they were
    /// supplied, otherwise `length` draws from the half-open range.
    pub fn generate_vec(&mut self) -> (r: Vec<u32>)
        requires
            old(self).spec_conf().wf(),
        ensures
            final(self).spec_conf() == old(self).spec_conf(),
            old(self).spec_conf().spec_seed_arr() matches Some(sa) ==> r@ == sa,
            old(self).spec_conf().spec_seed_arr() is None ==> r@.len() == old(
                self,
            ).spec_conf().spec_length(),
            old(self).spec_conf().spec_seed_arr() is None ==> forall|k: int|
                0 <= k < r@.len() ==> old(self).spec_conf().spec_range().0 <= #[trigger] r@[k]
                    && r@[k] < old(self).spec_conf().spec_range().1,
    {
        match &self.conf.seed_arr {
            Some(seed_arr) => {
                let r = seed_arr.clone();
                proof {
                    assert(r@ =~= old(self).spec_conf().spec_seed_arr()->0);
                }
                r
            },
            None => {
                let left = self.conf.range.0;
                let right = self.conf.range.1;
                let len = self.conf.length;
                let mut res: Vec<u32> = Vec::new();
                let mut k: usize = 0;
                while k < len
                    invariant
                        k <= len,
                        res@.len() == k,
                        self.spec_conf() == old(self).spec_conf(),
                        old(self).spec_conf().spec_seed_arr() is None,
                        left == old(self).spec_conf().spec_range().0,
                        right == old(self).spec_conf().spec_range().1,
                        left < right,
                        right <= u32::MAX,
                        forall|m: int|
                            0 <= m < res@.len() ==> left <= #[trigger] res@[m] && res@[m] < right,
                    decreases len - k,
                {
                    let v = sample_range(&mut self.rng, left, right);
                    res.push(v as u32);
                    k = k + 1;
                }
                res
            },
        }
    }
}

} // verus!
