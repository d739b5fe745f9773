//! Pseudo-random number generation for the simulator.
//!
//! The generator is a small Jenkins-style generator whose state can be
//! seeded deterministically (reproducible runs) or from the operating
//! system's randomness.
use vstd::prelude::*;
use vstd::wrapping::u32_specs;
use rand::Rng;

verus! {

/// The largest value `random_uint` can return.
pub const RANDOM_UINT_MAX: u32 = 0xffff_ffff;

/// The eight 32-bit words of generator state.
pub struct RngState {
    pub x: u32,
    pub y: u32,
    pub z: u32,
    pub c: u32,
    pub ja: u32,
    pub jb: u32,
    pub jc: u32,
    pub jd: u32,
}

/// `v` rotated left by `k` bits, for 0 < k < 32.
pub open spec fn rot32(v: u32, k: u32) -> u32 {
    (v << k) | (v >> ((32 - k) as u32))
}

impl RngState {
    /// The intermediate word `e` of one step.
    pub open spec fn step_e(self) -> u32 {
        u32_specs::wrapping_sub(self.ja, rot32(self.jb, 27))
    }

    /// The state after one call of `next`.
    pub open spec fn next_state(self) -> RngState {
        let e = self.step_e();
        let a = self.jb ^ rot32(self.jc, 17);
        RngState {
            ja: a,
            jb: u32_specs::wrapping_add(self.jc, self.jd),
            jc: u32_specs::wrapping_add(self.jd, e),
            jd: u32_specs::wrapping_add(e, a),
            ..self
        }
    }

    /// The value one call of `next` returns.
    pub open spec fn next_output(self) -> u32 {
        self.next_state().jd
    }

    /// The state after `n` calls of `next`.
    pub open spec fn advance(self, n: nat) -> RngState
        decreases n,
    {
        if n == 0 {
            self
        } else {
            self.advance((n - 1) as nat).next_state()
        }
    }

    /// The state a deterministic initialization from `seed` and `thread_num` produces.
    pub open spec fn seeded(seed: u32, thread_num: u32) -> RngState {
        let x = u32_specs::wrapping_add(u32_specs::wrapping_add(seed, 123456789), thread_num);
        let y = u32_specs::wrapping_add(u32_specs::wrapping_add(seed, 362436000), thread_num);
        let z = u32_specs::wrapping_add(u32_specs::wrapping_add(seed, 521288629), thread_num);
        let c = u32_specs::wrapping_add(u32_specs::wrapping_add(seed, 7654321), thread_num);
        let b = u32_specs::wrapping_add(seed, thread_num);
        let b2: u32 = if b == 0 {
            123456789
        } else {
            b
        };
        RngState {
            x: if x == 0 {
                123456789
            } else {
                x
            },
            y: if y == 0 {
                123456789
            } else {
                y
            },
            z: if z == 0 {
                123456789
            } else {
                z
            },
            c: if c == 0 {
                123456789
            } else {
                c
            },
            ja: 0xf1ea5eed,
            jb: b2,
            jc: b2,
            jd: b2,
        }
    }
}

/// A pseudo-random generator of 32-bit values.
pub struct RandomUintGenerator {
    rngx: u32,
    rngy: u32,
    rngz: u32,
    rngc: u32,
    a: u32,
    b: u32,
    c: u32,
    d: u32,
}

impl View for RandomUintGenerator {
    type V = RngState;

    closed spec fn view(&self) -> RngState {
        RngState {
            x: self.rngx,
            y: self.rngy,
            z: self.rngz,
            c: self.rngc,
            ja: self.a,
            jb: self.b,
            jc: self.c,
            jd: self.d,
        }
    }
}

fn rotate_left_32(v: u32, k: u32) -> (r: u32)
    requires
        0 < k < 32,
    ensures
        r == rot32(v, k),
{
    (v << k) | (v >> (32 - k))
}

/// A random 32-bit value drawn from the operating system seeded thread
/// generator of `rand`, uniformly from 1..=u32::MAX.
///
/// Calls `rand::Rng::gen_range` with the range `1..=u32::MAX` on
/// `rand::thread_rng()`. Claimed: the value lies in that range, as
/// `gen_range` documents. Nothing else is stated: the value is random.
#[verifier::external_body]
fn nonzero_random_u32() -> (r: u32)
    ensures
        r != 0,
{
    rand::thread_rng().gen_range(1..=u32::MAX)
}

impl RandomUintGenerator {
    /// A generator whose state words are all zero.
    pub fn new() -> (g: RandomUintGenerator)
        ensures
            g@ == (RngState { x: 0, y: 0, z: 0, c: 0, ja: 0, jb: 0, jc: 0, jd: 0 }),
    {
        RandomUintGenerator { rngx: 0, rngy: 0, rngz: 0, rngc: 0, a: 0, b: 0, c: 0, d: 0 }
    }

    /// Seeds the generator. When `deterministic` is set, the state is a
    /// function of `rng_seed` and the low 32 bits of `thread_num`;
    /// otherwise it is drawn from the operating system's randomness with
    /// every seeded word nonzero.
    pub fn initialize(&mut self, deterministic: bool, rng_seed: u32, thread_num: usize)
        ensures
            deterministic ==> final(self)@ == RngState::seeded(rng_seed, thread_num as u32),
            !deterministic ==> {
                &&& final(self)@.ja == 0xf1ea5eed
                &&& final(self)@.x != 0 && final(self)@.y != 0
                &&& final(self)@.z != 0 && final(self)@.c != 0
                &&& final(self)@.jb != 0
                &&& final(self)@.jc == final(self)@.jb
                &&& final(self)@.jd == final(self)@.jb
            },
    {
        if deterministic {
            let t = thread_num as u32;
            self.rngx = rng_seed.wrapping_add(123456789).wrapping_add(t);
            self.rngy = rng_seed.wrapping_add(362436000).wrapping_add(t);
            self.rngz = rng_seed.wrapping_add(521288629).wrapping_add(t);
            self.rngc = rng_seed.wrapping_add(7654321).wrapping_add(t);
            if self.rngx == 0 {
                self.rngx = 123456789;
            }
            if self.rngy == 0 {
                self.rngy = 123456789;
            }
            if self.rngz == 0 {
                self.rngz = 123456789;
            }
            if self.rngc == 0 {
                self.rngc = 123456789;
            }
            self.a = 0xf1ea5eed;
            self.b = rng_seed.wrapping_add(t);
            self.c = self.b;
            self.d = self.b;
            if self.b == 0 {
                self.b = self.d.wrapping_add(123456789);
                self.c = self.b;
                self.d = self.b;
            }
        } else {
            self.rngx = nonzero_random_u32();
            self.rngy = nonzero_random_u32();
            self.rngz = nonzero_random_u32();
            self.rngc = nonzero_random_u32();
            self.a = 0xf1ea5eed;
            self.b = nonzero_random_u32();
            self.c = self.b;
            self.d = self.b;
        }
    }

    /// The next value of the sequence.
    pub fn next(&mut self) -> (r: u32)
        ensures
            final(self)@ == old(self)@.next_state(),
            r == old(self)@.next_output(),
    {
        let e = self.a.wrapping_sub(rotate_left_32(self.b, 27));
        self.a = self.b ^ rotate_left_32(self.c, 17);
        self.b = self.c.wrapping_add(self.d);
        self.c = self.d.wrapping_add(e);
        self.d = e.wrapping_add(self.a);
        self.d
    }

    /// A value in `min..=max`: the next value reduced modulo the size of
    /// the range and shifted to start at `min`.
    pub fn next_range(&mut self, min: u32, max: u32) -> (r: u32)
        requires
            min <= max,
            max - min < u32::MAX,
        ensures
            final(self)@ == old(self)@.next_state(),
            r == old(self)@.next_output() % ((max - min + 1) as u32) + min,
            min <= r <= max,
    {
        let v = self.next();
        (v % (max - min + 1)) + min
    }
}

impl Default for RandomUintGenerator {
    fn default() -> (g: RandomUintGenerator)
        ensures
            g@ == (RngState { x: 0, y: 0, z: 0, c: 0, ja: 0, jb: 0, jc: 0, jd: 0 }),
    {
        RandomUintGenerator::new()
    }
}

/// The next value of the simulator's generator.
pub fn random_uint(rng: &mut RandomUintGenerator) -> (r: u32)
    ensures
        final(rng)@ == old(rng)@.next_state(),
        r == old(rng)@.next_output(),
{
    rng.next()
}

/// A value in `min..=max` from the simulator's generator.
pub fn random_uint_range(rng: &mut RandomUintGenerator, min: u32, max: u32) -> (r: u32)
    requires
        min <= max,
        max - min < u32::MAX,
    ensures
        final(rng)@ == old(rng)@.next_state(),
        r == old(rng)@.next_output() % ((max - min + 1) as u32) + min,
        min <= r <= max,
{
    rng.next_range(min, max)
}

/// Seeds the simulator's generator (see `RandomUintGenerator::initialize`).
pub fn initialize_random(
    rng: &mut RandomUintGenerator,
    deterministic: bool,
    rng_seed: u32,
    thread_num: usize,
)
    ensures
        deterministic ==> final(rng)@ == RngState::seeded(rng_seed, thread_num as u32),
        !deterministic ==> {
            &&& final(rng)@.ja == 0xf1ea5eed
            &&& final(rng)@.x != 0 && final(rng)@.y != 0
            &&& final(rng)@.z != 0 && final(rng)@.c != 0
            &&& final(rng)@.jb != 0
            &&& final(rng)@.jc == final(rng)@.jb
            &&& final(rng)@.jd == final(rng)@.jb
        },
{
    rng.initialize(deterministic, rng_seed, thread_num);
}

} // verus!
