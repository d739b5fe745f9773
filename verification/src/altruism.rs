//! Kin selection for the altruism challenge: individuals that sacrificed
//! themselves save relatives among the survivors. Each sacrifice, in each
//! of several passes, starts at a random survivor and saves the first one,
//! going round the list, whose genome is similar enough to its own.
use vstd::prelude::*;

use crate::genome_compare::{genome_similarity_ratio, similarity_of, similarity_value};
use crate::indiv::Indiv;
use crate::params::Params;
use crate::peeps::Peeps;
use crate::random::{random_uint_range, RandomUintGenerator, RngState};

verus! {

/// Two indices name individuals whose genomes are at least
/// `num / den` similar.
pub open spec fn kin(inds: Seq<Indiv>, a: u16, b: u16, method: u32, num: u32, den: u32) -> bool {
    &&& a != 0 && a < inds.len()
    &&& b != 0 && b < inds.len()
    &&& ({
        let v = similarity_value(similarity_of(inds[a as int].genome@, inds[b as int].genome@, method).0);
        v.1 > 0 && v.0 * den >= num * v.1
    })
}

/// The first survivor, going round the list from `start` for the
/// remaining `count` positions, that is kin of `s`.
pub open spec fn first_kin(
    inds: Seq<Indiv>,
    s: u16,
    parents: Seq<u16>,
    start: int,
    c: int,
    method: u32,
    num: u32,
    den: u32,
) -> Option<u16>
    decreases parents.len() - c,
{
    if c < 0 || c >= parents.len() {
        None
    } else {
        let p = parents[(start + c) % (parents.len() as int)];
        if kin(inds, s, p, method, num, den) {
            Some(p)
        } else {
            first_kin(inds, s, parents, start, c + 1, method, num, den)
        }
    }
}

/// The survivors saved by the first `t` rescues, each rescue being
/// sacrifice `t % |sacrificed|` drawing its start from the generator
/// state after the earlier rescues.
pub open spec fn saved_kin(
    inds: Seq<Indiv>,
    sacrificed: Seq<u16>,
    parents: Seq<u16>,
    s0: RngState,
    t: nat,
    method: u32,
    num: u32,
    den: u32,
) -> Seq<u16>
    decreases t,
{
    if t == 0 {
        Seq::empty()
    } else {
        let prev = saved_kin(inds, sacrificed, parents, s0, (t - 1) as nat, method, num, den);
        let s = sacrificed[((t - 1) as int) % (sacrificed.len() as int)];
        let start = (s0.advance((t - 1) as nat).next_output() % (parents.len() as u32)) as int;
        match first_kin(inds, s, parents, start, 0, method, num, den) {
            Some(p) => prev.push(p),
            None => prev,
        }
    }
}

/// The survivors saved by kin selection: `passes` rounds in which each
/// sacrificed individual, in order, draws a random start among the
/// survivors and saves the first one, going round the list, that is at
/// least `num / den` similar to it (see `saved_kin`). A survivor can be
/// saved more than once.
pub fn surviving_kin(
    sacrificed: &[u16],
    parents: &[u16],
    passes: u32,
    peeps: &Peeps,
    params: &Params,
    num: u32,
    den: u32,
    rng: &mut RandomUintGenerator,
) -> (saved: Vec<u16>)
    requires
        sacrificed@.len() > 0 ==> 0 < parents@.len() <= u32::MAX,
        passes as int * sacrificed@.len() <= u32::MAX,
        forall|i: int|
            0 <= i < peeps.individuals@.len() ==> #[trigger] peeps.individuals@[i].genome@.len()
                <= u32::MAX,
    ensures
        sacrificed@.len() == 0 ==> saved@.len() == 0 && final(rng)@ == old(rng)@,
        sacrificed@.len() > 0 ==> saved@ == saved_kin(
            peeps.individuals@,
            sacrificed@,
            parents@,
            old(rng)@,
            (passes * sacrificed@.len()) as nat,
            params.genome_comparison_method,
            num,
            den,
        ) && final(rng)@ == old(rng)@.advance((passes * sacrificed@.len()) as nat),
{
    let mut saved: Vec<u16> = Vec::new();
    if sacrificed.len() == 0 {
        return saved;
    }
    let ghost s0 = old(rng)@;
    let ghost method = params.genome_comparison_method;
    let ns = sacrificed.len();
    let np = parents.len();
    let total: u64 = passes as u64 * ns as u64;
    let mut t: u64 = 0;
    while t < total
        invariant
            0 < ns == sacrificed@.len(),
            0 < np == parents@.len() <= u32::MAX,
            total == passes * ns,
            total <= u32::MAX,
            t <= total,
            method == params.genome_comparison_method,
            forall|i: int|
                0 <= i < peeps.individuals@.len() ==> #[trigger] peeps.individuals@[i].genome@.len()
                    <= u32::MAX,
            saved@ == saved_kin(peeps.individuals@, sacrificed@, parents@, s0, t as nat, method, num, den),
            rng@ == s0.advance(t as nat),
        decreases total - t,
    {
        let s = sacrificed[(t % ns as u64) as usize];
        let start = random_uint_range(rng, 0, (np - 1) as u32) as usize;
        proof {
            crate::genome_neurons::lemma_advance_next(s0, t as nat);
        }
        let mut c: usize = 0;
        let mut found: Option<u16> = None;
        while c < np && found.is_none()
            invariant
                0 < np == parents@.len() <= u32::MAX,
                start < np,
                c <= np,
                forall|i: int|
                    0 <= i < peeps.individuals@.len() ==> #[trigger] peeps.individuals@[i].genome@.len()
                        <= u32::MAX,
                found is None ==> first_kin(peeps.individuals@, s, parents@, start as int, 0, method, num, den)
                    == first_kin(peeps.individuals@, s, parents@, start as int, c as int, method, num, den),
                found matches Some(p) ==> first_kin(peeps.individuals@, s, parents@, start as int, 0, method, num, den)
                    == Some(p),
                method == params.genome_comparison_method,
            decreases np - c + if found is None { 1int } else { 0int },
        {
            let pos = ((start as u64 + c as u64) % np as u64) as usize;
            let p = parents[pos];
            let is_kin = match (peeps.get(s), peeps.get(p)) {
                (Some(a), Some(b)) => {
                    let (r, _) = genome_similarity_ratio(&a.genome, &b.genome, params);
                    let x = r.num as i128;
                    let y = r.den as i128;
                    let d = den as i128;
                    let n = num as i128;
                    assert(-0x8000_0000_0000_0000 * 0xffff_ffff <= x * d <= 0x8000_0000_0000_0000 * 0xffff_ffff) by (nonlinear_arith)
                        requires -0x8000_0000_0000_0000 <= x <= 0x7fff_ffff_ffff_ffff, 0 <= d <= 0xffff_ffff;
                    assert(-0x8000_0000_0000_0000 * 0xffff_ffff <= n * y <= 0x8000_0000_0000_0000 * 0xffff_ffff) by (nonlinear_arith)
                        requires -0x8000_0000_0000_0000 <= y <= 0x7fff_ffff_ffff_ffff, 0 <= n <= 0xffff_ffff;
                    y > 0 && x * d >= n * y
                },
                _ => false,
            };
            if is_kin {
                found = Some(p);
            } else {
                c = c + 1;
            }
        }
        match found {
            Some(p) => {
                saved.push(p);
            },
            None => {},
        }
        t = t + 1;
    }
    saved
}

} // verus!
