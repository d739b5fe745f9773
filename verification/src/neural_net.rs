//! The brain wired from a genome: connections, neurons, and the wiring
//! that culls neurons which feed nothing but themselves.
use vstd::prelude::*;

use crate::genome_neurons::{Gene, Genome, ACTION, NEURON};
use crate::params::Params;
use crate::sensors_actions::{NUM_ACTIONS, NUM_SENSES};

verus! {

/// One wired connection. The weight is in units of 1/8192, the scale of
/// gene weights; merged duplicates sum their weights exactly.
#[derive(Debug, Clone, Copy, PartialEq, Eq, Structural)]
pub struct Connection {
    pub source_type: u8,
    pub source_num: u8,
    pub sink_type: u8,
    pub sink_num: u8,
    pub weight: i64,
    /// Connections with the same source and sink share a dendrite.
    pub dendrite_id: u16,
    /// 0 for an excitatory (nonnegative) weight, 1 for an inhibitory one.
    pub receptor_type: u8,
}

/// An internal neuron; an undriven one has no incoming connection and
/// keeps a fixed output.
#[derive(Debug, Clone, Copy, PartialEq, Eq, Structural)]
pub struct Neuron {
    pub driven: bool,
}

/// A wired brain.
#[derive(Debug, Clone)]
pub struct NeuralNet {
    pub connections: Vec<Connection>,
    pub neurons: Vec<Neuron>,
}

/// The receptor type of a weight: excitatory (0) when nonnegative,
/// inhibitory (1) otherwise.
pub open spec fn receptor_of(weight: int) -> u8 {
    if weight >= 0 {
        0
    } else {
        1
    }
}

/// The connection a gene becomes, with the given dendrite.
pub open spec fn connection_of(gene: Gene, dendrite_id: u16) -> Connection {
    Connection {
        source_type: gene.source_type,
        source_num: gene.source_num,
        sink_type: gene.sink_type,
        sink_num: gene.sink_num,
        weight: gene.weight as i64,
        dendrite_id,
        receptor_type: receptor_of(gene.weight as int),
    }
}

/// The gene a connection stands for, its weight clamped into the `i16`
/// range.
pub open spec fn gene_of(c: Connection) -> Gene {
    Gene {
        source_type: c.source_type,
        source_num: c.source_num,
        sink_type: c.sink_type,
        sink_num: c.sink_num,
        weight: if c.weight < i16::MIN {
            i16::MIN
        } else if c.weight > i16::MAX {
            i16::MAX
        } else {
            c.weight as i16
        },
    }
}

impl Connection {
    /// The connection of `gene`, on the given dendrite.
    pub fn from_gene(gene: &Gene, dendrite_id: u16) -> (c: Connection)
        ensures
            c == connection_of(*gene, dendrite_id),
    {
        let receptor_type: u8 = if gene.weight >= 0 {
            0
        } else {
            1
        };
        Connection {
            source_type: gene.source_type,
            source_num: gene.source_num,
            sink_type: gene.sink_type,
            sink_num: gene.sink_num,
            weight: gene.weight as i64,
            dendrite_id,
            receptor_type,
        }
    }

    /// The gene this connection stands for (see `gene_of`).
    pub fn to_gene(&self) -> (g: Gene)
        ensures
            g == gene_of(*self),
    {
        let w: i16 = if self.weight < -32768 {
            -32768
        } else if self.weight > 32767 {
            32767
        } else {
            self.weight as i16
        };
        Gene {
            source_type: self.source_type,
            source_num: self.source_num,
            sink_type: self.sink_type,
            sink_num: self.sink_num,
            weight: w,
        }
    }
}

/// A gene becomes a connection and back unchanged.
pub proof fn lemma_gene_connection_roundtrip(gene: Gene, dendrite_id: u16)
    ensures
        gene_of(connection_of(gene, dendrite_id)) == gene,
{
}

/// The gene with its numbers brought into range: a neuron number modulo
/// the neuron limit, a sensor number modulo the number of sensors, an
/// action number modulo the number of actions.
pub open spec fn renumbered(g: Gene, max_neurons: u32) -> Gene {
    Gene {
        source_num: if g.source_type == NEURON {
            (g.source_num as u32 % max_neurons) as u8
        } else {
            (g.source_num as u32 % NUM_SENSES as u32) as u8
        },
        sink_num: if g.sink_type == NEURON {
            (g.sink_num as u32 % max_neurons) as u8
        } else {
            (g.sink_num as u32 % NUM_ACTIONS as u32) as u8
        },
        ..g
    }
}

/// The genome's genes, renumbered.
pub open spec fn renumbered_list(genome: Seq<Gene>, max_neurons: u32) -> Seq<Gene> {
    genome.map_values(|g: Gene| renumbered(g, max_neurons))
}

/// `c` is an output of neuron `n` that reaches something other than `n`
/// itself: an action, or a neuron of `alive`.
pub open spec fn feeds_other(c: Gene, n: u8, alive: Set<u8>) -> bool {
    &&& c.source_type == NEURON
    &&& c.source_num == n
    &&& (c.sink_type != NEURON || (c.sink_num != n && alive.contains(c.sink_num)))
}

/// Every neuron of `alive` has an output that reaches something other
/// than itself: an action or a neuron of `alive`.
pub open spec fn feeds_forward(conns: Seq<Gene>, alive: Set<u8>) -> bool {
    forall|n: u8|
        #[trigger] alive.contains(n) ==> exists|i: int|
            0 <= i < conns.len() && #[trigger] feeds_other(conns[i], n, alive)
}

/// Neuron `n` survives the culling: it belongs to a set of neurons each
/// of which feeds, other than itself, an action or a member of the set.
pub open spec fn survives(conns: Seq<Gene>, n: u8) -> bool {
    exists|alive: Set<u8>| feeds_forward(conns, alive) && #[trigger] alive.contains(n)
}

/// How many neurons numbered below `k` survive: the new number of a
/// surviving neuron `k`.
pub open spec fn survivors_below(conns: Seq<Gene>, k: int) -> nat
    decreases k,
{
    if k <= 0 {
        0
    } else {
        survivors_below(conns, k - 1) + if survives(conns, (k - 1) as u8) {
            1nat
        } else {
            0nat
        }
    }
}

/// Some connection ends at neuron `n`.
pub open spec fn has_incoming(conns: Seq<Gene>, n: u8) -> bool {
    exists|i: int| 0 <= i < conns.len() && conns[i].sink_type == NEURON && conns[i].sink_num == n
}

/// `c` with its neuron numbers replaced by their new numbers.
pub open spec fn remapped(conns: Seq<Gene>, c: Gene) -> Gene {
    Gene {
        source_num: if c.source_type == NEURON {
            survivors_below(conns, c.source_num as int) as u8
        } else {
            c.source_num
        },
        sink_num: if c.sink_type == NEURON {
            survivors_below(conns, c.sink_num as int) as u8
        } else {
            c.sink_num
        },
        ..c
    }
}

/// A connection's source is a sensor or a surviving neuron.
pub open spec fn source_kept(conns: Seq<Gene>, c: Gene) -> bool {
    c.source_type != NEURON || survives(conns, c.source_num)
}

/// Of the first `k` connections of `conns`, those that end at a
/// surviving neuron and start at a sensor or a surviving neuron,
/// renumbered, in order.
pub open spec fn neuron_sink_pass(conns: Seq<Gene>, k: int) -> Seq<Gene>
    decreases k,
{
    if k <= 0 {
        Seq::empty()
    } else {
        let rest = neuron_sink_pass(conns, k - 1);
        let c = conns[k - 1];
        if c.sink_type == NEURON && survives(conns, c.sink_num) && source_kept(conns, c) {
            rest.push(remapped(conns, c))
        } else {
            rest
        }
    }
}

/// Of the first `k` connections of `conns`, those that end at an action
/// and start at a sensor or a surviving neuron, renumbered, in order.
pub open spec fn action_sink_pass(conns: Seq<Gene>, k: int) -> Seq<Gene>
    decreases k,
{
    if k <= 0 {
        Seq::empty()
    } else {
        let rest = action_sink_pass(conns, k - 1);
        let c = conns[k - 1];
        if c.sink_type == ACTION && source_kept(conns, c) {
            rest.push(remapped(conns, c))
        } else {
            rest
        }
    }
}

/// The wired genes of a genome: first the connections into neurons, then
/// those into actions.
pub open spec fn wired_genes(genome: Seq<Gene>, max_neurons: u32) -> Seq<Gene> {
    let conns = renumbered_list(genome, max_neurons);
    neuron_sink_pass(conns, conns.len() as int) + action_sink_pass(conns, conns.len() as int)
}

/// The source and sink of a gene, which name its dendrite.
pub open spec fn key_of(g: Gene) -> (u8, u8, u8, u8) {
    (g.source_type, g.source_num, g.sink_type, g.sink_num)
}

/// The distinct keys of `gs`, in order of first appearance.
pub open spec fn first_keys(gs: Seq<Gene>) -> Seq<(u8, u8, u8, u8)>
    decreases gs.len(),
{
    if gs.len() == 0 {
        Seq::empty()
    } else {
        let rest = first_keys(gs.drop_last());
        if rest.contains(key_of(gs.last())) {
            rest
        } else {
            rest.push(key_of(gs.last()))
        }
    }
}

/// The sum of the weights of the genes of `gs` with key `k`.
pub open spec fn key_weight_sum(gs: Seq<Gene>, k: (u8, u8, u8, u8)) -> int
    decreases gs.len(),
{
    if gs.len() == 0 {
        0
    } else {
        key_weight_sum(gs.drop_last(), k) + if key_of(gs.last()) == k {
            gs.last().weight as int
        } else {
            0
        }
    }
}

/// The weight of the first gene of `gs` with key `k`.
pub open spec fn key_first_weight(gs: Seq<Gene>, k: (u8, u8, u8, u8)) -> int
    decreases gs.len(),
{
    if gs.len() == 0 {
        0
    } else if key_of(gs[0]) == k {
        gs[0].weight as int
    } else {
        key_first_weight(gs.drop_first(), k)
    }
}


/// Neuron `n` is a source or a sink of some connection of `conns`.
pub open spec fn is_node(conns: Seq<Gene>, n: int) -> bool {
    exists|i: int|
        0 <= i < conns.len() && ((conns[i].source_type == NEURON && conns[i].source_num == n) || (
        conns[i].sink_type == NEURON && conns[i].sink_num == n))
}

/// `c` is an output of neuron `n`, not to `n` itself, whose sink has not
/// been culled.
pub open spec fn live_useful(c: Gene, n: int, removed: Seq<bool>) -> bool {
    &&& c.source_type == NEURON
    &&& c.source_num == n
    &&& !(c.sink_type == NEURON && c.sink_num == n)
    &&& !(c.sink_type == NEURON && removed[c.sink_num as int])
}

/// How many of the first `k` neurons are nodes not yet culled.
pub open spec fn count_alive(node: Seq<bool>, removed: Seq<bool>, k: int) -> nat
    decreases k,
{
    if k <= 0 {
        0
    } else {
        count_alive(node, removed, k - 1) + if node[k - 1] && !removed[k - 1] {
            1nat
        } else {
            0nat
        }
    }
}

proof fn lemma_count_alive_bound(node: Seq<bool>, removed: Seq<bool>, k: int)
    ensures
        k >= 0 ==> count_alive(node, removed, k) <= k,
    decreases k,
{
    if k > 0 {
        lemma_count_alive_bound(node, removed, k - 1);
    }
}

proof fn lemma_count_alive_remove(node: Seq<bool>, removed: Seq<bool>, n: int, k: int)
    requires
        0 <= n < removed.len(),
        node.len() == removed.len(),
        k <= removed.len(),
        node[n],
        !removed[n],
    ensures
        k > n ==> count_alive(node, removed.update(n, true), k) + 1 == count_alive(node, removed, k),
        k <= n ==> count_alive(node, removed.update(n, true), k) == count_alive(node, removed, k),
    decreases k,
{
    if k > 0 {
        lemma_count_alive_remove(node, removed, n, k - 1);
        assert(removed.update(n, true)[k - 1] == (if k - 1 == n { true } else { removed[k - 1] }));
    }
}

/// The connections of `genome` with their numbers brought into range.
fn make_renumbered_connection_list(genome: &Genome, max_number_neurons: u32) -> (r: Vec<Gene>)
    requires
        max_number_neurons > 0,
    ensures
        r@ == renumbered_list(genome@, max_number_neurons),
{
    let mut connection_list: Vec<Gene> = Vec::new();
    let mut i: usize = 0;
    while i < genome.len()
        invariant
            max_number_neurons > 0,
            i <= genome.len(),
            connection_list@ == renumbered_list(genome@.subrange(0, i as int), max_number_neurons),
        decreases genome.len() - i,
    {
        let mut conn = genome[i];
        if conn.source_type == NEURON {
            conn.source_num = (conn.source_num as u32 % max_number_neurons) as u8;
        } else {
            conn.source_num = (conn.source_num as u32 % NUM_SENSES as u32) as u8;
        }
        if conn.sink_type == NEURON {
            conn.sink_num = (conn.sink_num as u32 % max_number_neurons) as u8;
        } else {
            conn.sink_num = (conn.sink_num as u32 % NUM_ACTIONS as u32) as u8;
        }
        connection_list.push(conn);
        assert(genome@.subrange(0, i + 1) == genome@.subrange(0, i as int).push(genome@[i as int]));
        i = i + 1;
    }
    assert(genome@.subrange(0, genome.len() as int) == genome@);
    connection_list
}

/// Marks the neurons that occur in `conns`.
fn make_node_list(conns: &Vec<Gene>) -> (node: Vec<bool>)
    ensures
        node.len() == 256,
        forall|n: int| 0 <= n < 256 ==> (#[trigger] node@[n] <==> is_node(conns@, n)),
{
    let mut node: Vec<bool> = vec![false; 256];
    let mut i: usize = 0;
    while i < conns.len()
        invariant
            i <= conns.len(),
            node.len() == 256,
            forall|n: int|
                0 <= n < 256 ==> (#[trigger] node@[n] <==> exists|j: int|
                    0 <= j < i && ((conns@[j].source_type == NEURON && conns@[j].source_num == n)
                        || (conns@[j].sink_type == NEURON && conns@[j].sink_num == n))),
        decreases conns.len() - i,
    {
        let c = conns[i];
        if c.source_type == NEURON {
            node.set(c.source_num as usize, true);
        }
        if c.sink_type == NEURON {
            node.set(c.sink_num as usize, true);
        }
        i = i + 1;
        assert forall|n: int|
            0 <= n < 256 implies (#[trigger] node@[n] <==> exists|j: int|
                0 <= j < i && ((conns@[j].source_type == NEURON && conns@[j].source_num == n) || (
                conns@[j].sink_type == NEURON && conns@[j].sink_num == n))) by {
            if (c.source_type == NEURON && c.source_num == n) || (c.sink_type == NEURON
                && c.sink_num == n) {
                assert(conns@[i - 1] == c);
            }
        }
    }
    node
}

/// Marks the neurons with a live output to something other than
/// themselves.
fn useful_outputs(conns: &Vec<Gene>, removed: &Vec<bool>) -> (u: Vec<bool>)
    requires
        removed.len() == 256,
    ensures
        u.len() == 256,
        forall|n: int|
            0 <= n < 256 ==> (#[trigger] u@[n] <==> exists|i: int|
                0 <= i < conns.len() && live_useful(conns@[i], n, removed@)),
{
    let mut u: Vec<bool> = vec![false; 256];
    let mut i: usize = 0;
    while i < conns.len()
        invariant
            i <= conns.len(),
            u.len() == 256,
            removed.len() == 256,
            forall|n: int|
                0 <= n < 256 ==> (#[trigger] u@[n] <==> exists|j: int|
                    0 <= j < i && live_useful(conns@[j], n, removed@)),
        decreases conns.len() - i,
    {
        let c = conns[i];
        if c.source_type == NEURON && !(c.sink_type == NEURON && c.sink_num == c.source_num) && !(
        c.sink_type == NEURON && removed[c.sink_num as usize]) {
            u.set(c.source_num as usize, true);
        }
        i = i + 1;
        assert forall|n: int|
            0 <= n < 256 implies (#[trigger] u@[n] <==> exists|j: int|
                0 <= j < i && live_useful(conns@[j], n, removed@)) by {
            if live_useful(c, n, removed@) {
                assert(conns@[i - 1] == c);
            }
        }
    }
    u
}


/// Culls, round after round, the neurons whose outputs all go back to
/// themselves, and marks those that remain: exactly the surviving ones.
fn cull_useless_neurons(conns: &Vec<Gene>, node: &Vec<bool>) -> (alive: Vec<bool>)
    requires
        node.len() == 256,
        forall|n: int| 0 <= n < 256 ==> (#[trigger] node@[n] <==> is_node(conns@, n)),
    ensures
        alive.len() == 256,
        forall|n: int| 0 <= n < 256 ==> (#[trigger] alive@[n] <==> survives(conns@, n as u8)),
{
    let mut removed: Vec<bool> = vec![false; 256];
    let mut alive_count: u32 = 0;
    let mut k: usize = 0;
    while k < 256
        invariant
            k <= 256,
            node.len() == 256,
            removed.len() == 256,
            forall|n: int| 0 <= n < 256 ==> !removed@[n],
            alive_count == count_alive(node@, removed@, k as int),
            alive_count <= k,
        decreases 256 - k,
    {
        if node[k] {
            alive_count = alive_count + 1;
        }
        k = k + 1;
    }
    let mut any = true;
    while any
        invariant
            node.len() == 256,
            removed.len() == 256,
            forall|n: int| 0 <= n < 256 ==> (#[trigger] node@[n] <==> is_node(conns@, n)),
            forall|n: int| 0 <= n < 256 && #[trigger] removed@[n] ==> node@[n],
            forall|l: Set<u8>, m: u8|
                feeds_forward(conns@, l) && #[trigger] l.contains(m) ==> !removed@[m as int],
            alive_count == count_alive(node@, removed@, 256),
            !any ==> forall|n: int|
                0 <= n < 256 && #[trigger] node@[n] && !removed@[n] ==> exists|i: int|
                    0 <= i < conns.len() && live_useful(conns@[i], n, removed@),
        decreases alive_count + if any {
            1int
        } else {
            0int
        },
    {
        let u = useful_outputs(conns, &removed);
        let ghost before = removed@;
        let ghost count_before = alive_count;
        proof {
            assert forall|l: Set<u8>, m: u8|
                feeds_forward(conns@, l) && #[trigger] l.contains(m) implies u@[m as int] by {
                let i = choose|i: int| 0 <= i < conns.len() && #[trigger] feeds_other(conns@[i], m, l);
                assert(live_useful(conns@[i], m as int, before));
            }
        }
        any = false;
        let mut n: usize = 0;
        while n < 256
            invariant
                n <= 256,
                node.len() == 256,
                removed.len() == 256,
                u.len() == 256,
                forall|j: int|
                    0 <= j < 256 ==> #[trigger] removed@[j] == (before[j] || (j < n && node@[j]
                        && !u@[j])),
                before.len() == 256,
                forall|j: int| 0 <= j < 256 && #[trigger] before[j] ==> node@[j],
                !any ==> forall|j: int|
                    0 <= j < n ==> !(#[trigger] node@[j] && !before[j] && !u@[j]),
                alive_count == count_alive(node@, removed@, 256),
                any ==> alive_count < count_before,
                !any ==> alive_count == count_before,
            decreases 256 - n,
        {
            if node[n] && !removed[n] && !u[n] {
                proof {
                    lemma_count_alive_remove(node@, removed@, n as int, 256);
                }
                removed.set(n, true);
                alive_count = alive_count - 1;
                any = true;
            }
            n = n + 1;
        }
        proof {
            if !any {
                assert(removed@ =~= before);
            }
        }
    }
    let mut alive: Vec<bool> = Vec::new();
    let mut m: usize = 0;
    while m < 256
        invariant
            m <= 256,
            alive.len() == m,
            node.len() == 256,
            removed.len() == 256,
            forall|j: int| 0 <= j < m ==> #[trigger] alive@[j] == (node@[j] && !removed@[j]),
        decreases 256 - m,
    {
        alive.push(node[m] && !removed[m]);
        m = m + 1;
    }
    proof {
        let a = Set::new(|j: u8| node@[j as int] && !removed@[j as int]);
        assert forall|j: u8| #[trigger] a.contains(j) implies exists|i: int|
            0 <= i < conns.len() && #[trigger] feeds_other(conns@[i], j, a) by {
            let i = choose|i: int| 0 <= i < conns.len() && live_useful(conns@[i], j as int, removed@);
            let c = conns@[i];
            if c.sink_type == NEURON {
                assert(is_node(conns@, c.sink_num as int));
            }
            assert(feeds_other(c, j, a));
        }
        assert(feeds_forward(conns@, a));
        assert forall|n: int| 0 <= n < 256 implies (#[trigger] alive@[n] <==> survives(
            conns@,
            n as u8,
        )) by {
            if alive@[n] {
                assert(a.contains(n as u8));
            }
            if survives(conns@, n as u8) {
                let l = choose|l: Set<u8>| feeds_forward(conns@, l) && #[trigger] l.contains(n as u8);
                let i = choose|i: int| 0 <= i < conns.len() && #[trigger] feeds_other(conns@[i], n as u8, l);
                assert(is_node(conns@, n));
            }
        }
    }
    alive
}


/// One neuron per surviving neuron numbered below `k`, in order of
/// number, driven when some connection ends at it.
pub open spec fn survivor_neurons(conns: Seq<Gene>, k: int) -> Seq<Neuron>
    decreases k,
{
    if k <= 0 {
        Seq::empty()
    } else {
        let rest = survivor_neurons(conns, k - 1);
        if survives(conns, (k - 1) as u8) {
            rest.push(Neuron { driven: has_incoming(conns, (k - 1) as u8) })
        } else {
            rest
        }
    }
}

/// The neuron list has one entry per survivor, and a survivor's new
/// number indexes its own entry.
pub proof fn lemma_survivor_neurons(conns: Seq<Gene>, k: int)
    ensures
        k >= 0 ==> survivor_neurons(conns, k).len() == survivors_below(conns, k),
        k >= 0 ==> survivors_below(conns, k) <= k,
        forall|m: int|
            0 <= m < k && #[trigger] survives(conns, m as u8) ==> {
                &&& survivors_below(conns, m) < survivors_below(conns, k)
                &&& survivor_neurons(conns, k)[survivors_below(conns, m) as int] == Neuron {
                    driven: has_incoming(conns, m as u8),
                }
            },
    decreases k,
{
    if k > 0 {
        lemma_survivor_neurons(conns, k - 1);
    }
}

/// Neurons numbered apart keep distinct new numbers when both survive.
pub proof fn lemma_survivors_below_injective(conns: Seq<Gene>, m1: int, m2: int)
    requires
        0 <= m1 < m2,
        survives(conns, m1 as u8),
    ensures
        survivors_below(conns, m1) < survivors_below(conns, m2),
    decreases m2,
{
    if m2 > m1 + 1 {
        lemma_survivors_below_injective(conns, m1, m2 - 1);
    }
}

/// The new numbers of all neurons: the count of survivors below each.
fn make_remap(alive: &Vec<bool>, Ghost(conns): Ghost<Seq<Gene>>) -> (remap: Vec<u16>)
    requires
        alive.len() == 256,
        forall|n: int| 0 <= n < 256 ==> (#[trigger] alive@[n] <==> survives(conns, n as u8)),
    ensures
        remap.len() == 257,
        forall|n: int| 0 <= n <= 256 ==> #[trigger] remap@[n] == survivors_below(conns, n),
{
    let mut remap: Vec<u16> = Vec::new();
    let mut count: u16 = 0;
    let mut n: usize = 0;
    while n < 256
        invariant
            n <= 256,
            alive.len() == 256,
            forall|j: int| 0 <= j < 256 ==> (#[trigger] alive@[j] <==> survives(conns, j as u8)),
            remap.len() == n,
            count == survivors_below(conns, n as int),
            count <= n,
            forall|j: int| 0 <= j < n ==> #[trigger] remap@[j] == survivors_below(conns, j),
        decreases 256 - n,
    {
        remap.push(count);
        if alive[n] {
            count = count + 1;
        }
        n = n + 1;
    }
    remap.push(count);
    remap
}

/// The wired neurons: one per survivor, in order of number.
fn make_neurons(conns: &Vec<Gene>, alive: &Vec<bool>) -> (neurons: Vec<Neuron>)
    requires
        alive.len() == 256,
        forall|n: int| 0 <= n < 256 ==> (#[trigger] alive@[n] <==> survives(conns@, n as u8)),
    ensures
        neurons@ == survivor_neurons(conns@, 256),
{
    let mut incoming: Vec<bool> = vec![false; 256];
    let mut i: usize = 0;
    while i < conns.len()
        invariant
            i <= conns.len(),
            incoming.len() == 256,
            forall|n: int|
                0 <= n < 256 ==> (#[trigger] incoming@[n] <==> exists|j: int|
                    0 <= j < i && conns@[j].sink_type == NEURON && conns@[j].sink_num == n),
        decreases conns.len() - i,
    {
        let c = conns[i];
        if c.sink_type == NEURON {
            incoming.set(c.sink_num as usize, true);
        }
        i = i + 1;
        assert forall|n: int|
            0 <= n < 256 implies (#[trigger] incoming@[n] <==> exists|j: int|
                0 <= j < i && conns@[j].sink_type == NEURON && conns@[j].sink_num == n) by {
            if c.sink_type == NEURON && c.sink_num == n {
                assert(conns@[i - 1] == c);
            }
        }
    }
    let mut neurons: Vec<Neuron> = Vec::new();
    let mut n: usize = 0;
    while n < 256
        invariant
            n <= 256,
            alive.len() == 256,
            incoming.len() == 256,
            forall|j: int| 0 <= j < 256 ==> (#[trigger] alive@[j] <==> survives(conns@, j as u8)),
            forall|j: int|
                0 <= j < 256 ==> (#[trigger] incoming@[j] <==> has_incoming(conns@, j as u8)),
            neurons@ == survivor_neurons(conns@, n as int),
        decreases 256 - n,
    {
        if alive[n] {
            neurons.push(Neuron { driven: incoming[n] });
        }
        n = n + 1;
    }
    neurons
}


/// The connection `c` with its neuron numbers replaced by `remap`.
fn remap_gene(c: Gene, remap: &Vec<u16>, Ghost(conns): Ghost<Seq<Gene>>) -> (g: Gene)
    requires
        remap.len() == 257,
        forall|n: int| 0 <= n <= 256 ==> #[trigger] remap@[n] == survivors_below(conns, n),
    ensures
        g == remapped(conns, c),
{
    let mut g = c;
    if c.sink_type == NEURON {
        proof {
            lemma_survivor_neurons(conns, c.sink_num as int);
        }
        g.sink_num = remap[c.sink_num as usize] as u8;
    }
    if c.source_type == NEURON {
        proof {
            lemma_survivor_neurons(conns, c.source_num as int);
        }
        g.source_num = remap[c.source_num as usize] as u8;
    }
    g
}

/// The wired genes (see `wired_genes`) of the renumbered list `conns`.
fn wire_genes(conns: &Vec<Gene>, alive: &Vec<bool>, remap: &Vec<u16>) -> (e: Vec<Gene>)
    requires
        alive.len() == 256,
        forall|n: int| 0 <= n < 256 ==> (#[trigger] alive@[n] <==> survives(conns@, n as u8)),
        remap.len() == 257,
        forall|n: int| 0 <= n <= 256 ==> #[trigger] remap@[n] == survivors_below(conns@, n),
    ensures
        e@ == neuron_sink_pass(conns@, conns@.len() as int) + action_sink_pass(
            conns@,
            conns@.len() as int,
        ),
{
    let mut e: Vec<Gene> = Vec::new();
    let mut i: usize = 0;
    while i < conns.len()
        invariant
            i <= conns.len(),
            alive.len() == 256,
            forall|n: int| 0 <= n < 256 ==> (#[trigger] alive@[n] <==> survives(conns@, n as u8)),
            remap.len() == 257,
            forall|n: int| 0 <= n <= 256 ==> #[trigger] remap@[n] == survivors_below(conns@, n),
            e@ == neuron_sink_pass(conns@, i as int),
        decreases conns.len() - i,
    {
        let c = conns[i];
        if c.sink_type == NEURON && alive[c.sink_num as usize] && (c.source_type != NEURON
            || alive[c.source_num as usize]) {
            let g = remap_gene(c, remap, Ghost(conns@));
            e.push(g);
        }
        i = i + 1;
    }
    let ghost first = e@;
    let mut i: usize = 0;
    while i < conns.len()
        invariant
            i <= conns.len(),
            alive.len() == 256,
            forall|n: int| 0 <= n < 256 ==> (#[trigger] alive@[n] <==> survives(conns@, n as u8)),
            remap.len() == 257,
            forall|n: int| 0 <= n <= 256 ==> #[trigger] remap@[n] == survivors_below(conns@, n),
            first == neuron_sink_pass(conns@, conns@.len() as int),
            e@ == first + action_sink_pass(conns@, i as int),
        decreases conns.len() - i,
    {
        let c = conns[i];
        if c.sink_type == ACTION && (c.source_type != NEURON || alive[c.source_num as usize]) {
            let g = remap_gene(c, remap, Ghost(conns@));
            e.push(g);
            assert(e@ == first + action_sink_pass(conns@, i as int).push(g));
        }
        i = i + 1;
    }
    e
}


/// A key is among the first keys exactly when some gene has it.
pub proof fn lemma_first_keys_contains(gs: Seq<Gene>, k: (u8, u8, u8, u8))
    ensures
        first_keys(gs).contains(k) <==> exists|i: int| 0 <= i < gs.len() && key_of(gs[i]) == k,
    decreases gs.len(),
{
    if gs.len() > 0 {
        let init = gs.drop_last();
        let rest = first_keys(init);
        let last = gs[gs.len() - 1];
        lemma_first_keys_contains(init, k);
        assert(forall|i: int| 0 <= i < init.len() ==> init[i] == gs[i]);
        if rest.contains(key_of(last)) {
            assert(first_keys(gs) == rest);
            if key_of(last) == k {
                assert(key_of(gs[gs.len() - 1]) == k);
            }
        } else {
            assert(first_keys(gs) == rest.push(key_of(last)));
            assert(rest.push(key_of(last))[rest.len() as int] == key_of(last));
            if first_keys(gs).contains(k) {
                let j = choose|j: int| 0 <= j < first_keys(gs).len() && first_keys(gs)[j] == k;
                if j < rest.len() {
                    assert(rest[j] == k);
                } else {
                    assert(key_of(gs[gs.len() - 1]) == k);
                }
            }
            if exists|i: int| 0 <= i < gs.len() && key_of(gs[i]) == k {
                let i = choose|i: int| 0 <= i < gs.len() && key_of(gs[i]) == k;
                if i < gs.len() - 1 {
                    assert(key_of(init[i]) == k);
                    let j = choose|j: int| 0 <= j < rest.len() && rest[j] == k;
                    assert(first_keys(gs)[j] == k);
                } else {
                    assert(first_keys(gs)[rest.len() as int] == k);
                }
            }
        }
    } else {
        assert(first_keys(gs) =~= Seq::<(u8, u8, u8, u8)>::empty());
    }
}

/// The first keys are distinct, and no more than the genes.
pub proof fn lemma_first_keys_distinct(gs: Seq<Gene>)
    ensures
        first_keys(gs).no_duplicates(),
        first_keys(gs).len() <= gs.len(),
    decreases gs.len(),
{
    if gs.len() > 0 {
        lemma_first_keys_distinct(gs.drop_last());
    }
}

/// The first keys of a prefix are a prefix of the first keys.
pub proof fn lemma_first_keys_prefix(gs: Seq<Gene>, i: int)
    requires
        0 <= i <= gs.len(),
    ensures
        first_keys(gs.take(i)).len() <= first_keys(gs).len(),
        forall|j: int|
            0 <= j < first_keys(gs.take(i)).len() ==> #[trigger] first_keys(gs.take(i))[j]
                == first_keys(gs)[j],
    decreases gs.len(),
{
    if i == gs.len() {
        assert(gs.take(i) == gs);
    } else {
        lemma_first_keys_prefix(gs.drop_last(), i);
        assert(gs.drop_last().take(i) == gs.take(i));
    }
}

/// The weight sum of a key no gene has is zero.
proof fn lemma_key_weight_sum_absent(gs: Seq<Gene>, k: (u8, u8, u8, u8))
    requires
        forall|i: int| 0 <= i < gs.len() ==> key_of(#[trigger] gs[i]) != k,
    ensures
        key_weight_sum(gs, k) == 0,
    decreases gs.len(),
{
    if gs.len() > 0 {
        assert forall|i: int| 0 <= i < gs.drop_last().len() implies key_of(
            #[trigger] gs.drop_last()[i],
        ) != k by {
            assert(gs.drop_last()[i] == gs[i]);
        }
        lemma_key_weight_sum_absent(gs.drop_last(), k);
    }
}

/// A weight sum is bounded by the number of genes times the largest
/// weight magnitude.
proof fn lemma_key_weight_sum_bound(gs: Seq<Gene>, k: (u8, u8, u8, u8))
    ensures
        -32768 * gs.len() <= key_weight_sum(gs, k) <= 32768 * gs.len(),
    decreases gs.len(),
{
    if gs.len() > 0 {
        lemma_key_weight_sum_bound(gs.drop_last(), k);
    }
}

/// Appending a gene keeps the first weight of a key some gene already
/// has, and gives a new key the appended gene's weight.
proof fn lemma_key_first_weight_push(gs: Seq<Gene>, x: Gene, k: (u8, u8, u8, u8))
    ensures
        (exists|i: int| 0 <= i < gs.len() && key_of(gs[i]) == k) ==> key_first_weight(gs.push(x), k)
            == key_first_weight(gs, k),
        (forall|i: int| 0 <= i < gs.len() ==> key_of(#[trigger] gs[i]) != k) && key_of(x) == k
            ==> key_first_weight(gs.push(x), k) == x.weight,
    decreases gs.len(),
{
    if gs.len() > 0 {
        assert(gs.push(x).drop_first() == gs.drop_first().push(x));
        assert(gs.push(x)[0] == gs[0]);
        lemma_key_first_weight_push(gs.drop_first(), x, k);
        if exists|i: int| 0 <= i < gs.len() && key_of(gs[i]) == k {
            let i = choose|i: int| 0 <= i < gs.len() && key_of(gs[i]) == k;
            if key_of(gs[0]) != k {
                assert(key_of(gs.drop_first()[i - 1]) == k);
            }
        }
        if forall|i: int| 0 <= i < gs.len() ==> key_of(#[trigger] gs[i]) != k {
            assert(key_of(gs[0]) != k);
            assert forall|i: int| 0 <= i < gs.drop_first().len() implies key_of(
                #[trigger] gs.drop_first()[i],
            ) != k by {
                assert(gs.drop_first()[i] == gs[i + 1]);
            }
        }
    } else {
        assert(gs.push(x).drop_first() =~= Seq::<Gene>::empty());
    }
}


/// Gives each wired gene the dendrite of its key: the position of the key
/// among the distinct keys in order of first appearance.
fn assign_dendrites(e: &Vec<Gene>) -> (cs: Vec<Connection>)
    requires
        first_keys(e@).len() <= 65535,
    ensures
        cs.len() == e.len(),
        forall|i: int|
            0 <= i < e.len() ==> {
                &&& (#[trigger] cs@[i]).dendrite_id < first_keys(e@).len()
                &&& cs@[i] == connection_of(e@[i], cs@[i].dendrite_id)
                &&& first_keys(e@)[cs@[i].dendrite_id as int] == key_of(e@[i])
            },
{
    let mut keys: Vec<(u8, u8, u8, u8)> = Vec::new();
    let mut cs: Vec<Connection> = Vec::new();
    let mut i: usize = 0;
    while i < e.len()
        invariant
            i <= e.len(),
            first_keys(e@).len() <= 65535,
            keys@ == first_keys(e@.take(i as int)),
            cs.len() == i,
            forall|j: int|
                0 <= j < i ==> {
                    &&& (#[trigger] cs@[j]).dendrite_id < keys.len()
                    &&& cs@[j] == connection_of(e@[j], cs@[j].dendrite_id)
                    &&& keys@[cs@[j].dendrite_id as int] == key_of(e@[j])
                },
        decreases e.len() - i,
    {
        let g = e[i];
        let ghost k = key_of(g);
        proof {
            assert(e@.take(i + 1).drop_last() == e@.take(i as int));
            assert(e@.take(i + 1).last() == g);
            lemma_first_keys_prefix(e@, i + 1);
        }
        let mut j: usize = 0;
        let mut found = false;
        while j < keys.len() && !found
            invariant
                j <= keys.len(),
                k == (g.source_type, g.source_num, g.sink_type, g.sink_num),
                found ==> j < keys.len() && keys@[j as int] == k,
                !found ==> forall|m: int| 0 <= m < j ==> keys@[m] != k,
            decreases keys.len() - j + if found {
                0int
            } else {
                1int
            },
        {
            let kj = keys[j];
            if kj.0 == g.source_type && kj.1 == g.source_num && kj.2 == g.sink_type && kj.3
                == g.sink_num {
                found = true;
            } else {
                j = j + 1;
            }
        }
        let id: u16;
        if found {
            id = j as u16;
        } else {
            id = keys.len() as u16;
            keys.push((g.source_type, g.source_num, g.sink_type, g.sink_num));
        }
        cs.push(Connection::from_gene(&g, id));
        i = i + 1;
    }
    proof {
        assert(e@.take(e.len() as int) == e@);
    }
    cs
}

/// The `j`-th connection after merging duplicates: the `j`-th distinct
/// key, the summed weight of its genes, its dendrite, and the receptor of
/// its first gene.
pub open spec fn merged_connection(e: Seq<Gene>, j: int) -> Connection {
    let k = first_keys(e)[j];
    Connection {
        source_type: k.0,
        source_num: k.1,
        sink_type: k.2,
        sink_num: k.3,
        weight: key_weight_sum(e, k) as i64,
        dendrite_id: j as u16,
        receptor_type: receptor_of(key_first_weight(e, k)),
    }
}

/// Merges the connections with equal keys, summing their weights.
fn deduplicate_connections(cs: &Vec<Connection>, Ghost(e): Ghost<Seq<Gene>>) -> (out: Vec<Connection>)
    requires
        cs.len() == e.len(),
        e.len() <= u32::MAX,
        first_keys(e).len() <= 65535,
        forall|i: int|
            0 <= i < e.len() ==> {
                &&& (#[trigger] cs@[i]).dendrite_id < first_keys(e).len()
                &&& cs@[i] == connection_of(e[i], cs@[i].dendrite_id)
                &&& first_keys(e)[cs@[i].dendrite_id as int] == key_of(e[i])
            },
    ensures
        out.len() == first_keys(e).len(),
        forall|j: int| 0 <= j < out.len() ==> #[trigger] out@[j] == merged_connection(e, j),
{
    let mut out: Vec<Connection> = Vec::new();
    let mut i: usize = 0;
    proof {
        lemma_first_keys_distinct(e);
    }
    while i < cs.len()
        invariant
            i <= cs.len(),
            cs.len() == e.len(),
            e.len() <= u32::MAX,
            first_keys(e).len() <= 65535,
            first_keys(e).no_duplicates(),
            forall|m: int|
                0 <= m < e.len() ==> {
                    &&& (#[trigger] cs@[m]).dendrite_id < first_keys(e).len()
                    &&& cs@[m] == connection_of(e[m], cs@[m].dendrite_id)
                    &&& first_keys(e)[cs@[m].dendrite_id as int] == key_of(e[m])
                },
            out.len() == first_keys(e.take(i as int)).len(),
            forall|j: int|
                0 <= j < out.len() ==> #[trigger] out@[j] == merged_connection(e.take(i as int), j),
        decreases cs.len() - i,
    {
        let c = cs[i];
        let ghost p = e.take(i as int);
        let ghost p1 = e.take(i + 1);
        let ghost k = key_of(e[i as int]);
        proof {
            assert(p1.drop_last() == p);
            assert(p1.last() == e[i as int]);
            assert(p1 == p.push(e[i as int]));
            lemma_first_keys_prefix(e, i + 1);
            lemma_first_keys_distinct(p);
            lemma_first_keys_contains(p, k);
        }
        let mut j: usize = 0;
        let mut found = false;
        while j < out.len() && !found
            invariant
                j <= out.len(),
                out.len() == first_keys(p).len(),
                forall|m: int| 0 <= m < out.len() ==> #[trigger] out@[m] == merged_connection(p, m),
                k == (c.source_type, c.source_num, c.sink_type, c.sink_num),
                found ==> j < out.len() && first_keys(p)[j as int] == k,
                !found ==> forall|m: int| 0 <= m < j ==> first_keys(p)[m] != k,
            decreases out.len() - j + if found {
                0int
            } else {
                1int
            },
        {
            let o = out[j];
            if o.source_type == c.source_type && o.source_num == c.source_num && o.sink_type
                == c.sink_type && o.sink_num == c.sink_num {
                found = true;
            } else {
                j = j + 1;
            }
        }
        if found {
            proof {
                assert(first_keys(p).contains(k));
                assert(first_keys(p1) == first_keys(p));
                lemma_key_weight_sum_bound(p1, k);
                assert forall|m: int| 0 <= m < out.len() implies merged_connection(p1, m)
                    == (if m == j {
                    Connection {
                        weight: (merged_connection(p, m).weight + c.weight) as i64,
                        ..merged_connection(p, m)
                    }
                } else {
                    merged_connection(p, m)
                }) by {
                    let km = first_keys(p)[m];
                    lemma_first_keys_contains(p, km);
                    lemma_key_first_weight_push(p, e[i as int], km);
                    lemma_key_weight_sum_bound(p, km);
                    lemma_key_weight_sum_bound(p1, km);
                    if m != j {
                        assert(km != k);
                    }
                }
            }
            let mut o = out[j];
            o.weight = o.weight + c.weight;
            out.set(j, o);
        } else {
            proof {
                assert(!first_keys(p).contains(k));
                assert(first_keys(p1) == first_keys(p).push(k));
                assert(first_keys(p1)[out.len() as int] == k);
                assert(first_keys(e)[out.len() as int] == k);
                assert(c.dendrite_id == out.len());
                assert forall|m: int| 0 <= m < p.len() implies key_of(#[trigger] p[m]) != k by {
                    if key_of(p[m]) == k {
                        assert(first_keys(p).contains(k));
                    }
                }
                lemma_key_weight_sum_absent(p, k);
                lemma_key_first_weight_push(p, e[i as int], k);
                assert forall|m: int| 0 <= m < out.len() implies merged_connection(p1, m)
                    == merged_connection(p, m) by {
                    let km = first_keys(p)[m];
                    lemma_first_keys_contains(p, km);
                    lemma_key_first_weight_push(p, e[i as int], km);
                    assert(km != k);
                }
            }
            out.push(c);
        }
        i = i + 1;
    }
    proof {
        assert(e.take(e.len() as int) == e);
    }
    out
}

/// Wires `nnet` from `genome`: the gene numbers are brought into range,
/// neurons whose outputs all go back to themselves are culled until none
/// is left, the survivors are renumbered in order, the connections into
/// neurons and then into actions are kept, each gets the dendrite of its
/// source and sink, and unless duplicates are allowed, connections with
/// equal source and sink merge into one with the summed weight.
pub fn create_wiring_from_genome(nnet: &mut NeuralNet, genome: &Genome, params: &Params)
    requires
        params.max_number_neurons > 0,
        genome.len() <= u32::MAX,
        first_keys(wired_genes(genome@, params.max_number_neurons)).len() <= 65535,
    ensures
        final(nnet).neurons@ == survivor_neurons(
            renumbered_list(genome@, params.max_number_neurons),
            256,
        ),
        ({
            let e = wired_genes(genome@, params.max_number_neurons);
            let cs = final(nnet).connections@;
            if params.allow_duplicate_connections {
                &&& cs.len() == e.len()
                &&& forall|i: int|
                    0 <= i < e.len() ==> {
                        &&& (#[trigger] cs[i]).dendrite_id < first_keys(e).len()
                        &&& cs[i] == connection_of(e[i], cs[i].dendrite_id)
                        &&& first_keys(e)[cs[i].dendrite_id as int] == key_of(e[i])
                    }
            } else {
                &&& cs.len() == first_keys(e).len()
                &&& forall|j: int| 0 <= j < cs.len() ==> #[trigger] cs[j] == merged_connection(e, j)
            }
        }),
{
    let connection_list = make_renumbered_connection_list(genome, params.max_number_neurons);
    let node = make_node_list(&connection_list);
    let alive = cull_useless_neurons(&connection_list, &node);
    let remap = make_remap(&alive, Ghost(connection_list@));
    let e = wire_genes(&connection_list, &alive, &remap);
    proof {
        lemma_pass_lengths(connection_list@, connection_list@.len() as int);
    }
    let cs = assign_dendrites(&e);
    if params.allow_duplicate_connections {
        nnet.connections = cs;
    } else {
        nnet.connections = deduplicate_connections(&cs, Ghost(e@));
    }
    nnet.neurons = make_neurons(&connection_list, &alive);
}

/// The passes keep no more connections than they read.
pub proof fn lemma_pass_lengths(conns: Seq<Gene>, k: int)
    ensures
        k >= 0 ==> neuron_sink_pass(conns, k).len() + action_sink_pass(conns, k).len() <= k,
    decreases k,
{
    if k > 0 {
        lemma_pass_lengths(conns, k - 1);
    }
}

} // verus!
verus! {

/// A connection names existing endpoints: a sensor below `NUM_SENSES`, an
/// action below `NUM_ACTIONS`, a neuron below `neurons`.
pub open spec fn names_existing(g: Gene, neurons: int) -> bool {
    &&& g.source_type == NEURON ==> g.source_num < neurons
    &&& g.source_type != NEURON ==> g.source_num < NUM_SENSES
    &&& g.sink_type == NEURON ==> g.sink_num < neurons
    &&& g.sink_type != NEURON ==> g.sink_num < NUM_ACTIONS
}

/// Sensor and action numbers are in range.
pub open spec fn io_in_range(conns: Seq<Gene>) -> bool {
    forall|i: int|
        0 <= i < conns.len() ==> (#[trigger] conns[i].source_type != NEURON ==> conns[i].source_num
            < NUM_SENSES) && (conns[i].sink_type != NEURON ==> conns[i].sink_num < NUM_ACTIONS)
}

proof fn lemma_remapped_in_range(conns: Seq<Gene>, c: Gene)
    requires
        c.source_type != NEURON ==> c.source_num < NUM_SENSES,
        c.sink_type != NEURON ==> c.sink_num < NUM_ACTIONS,
        c.source_type == NEURON ==> survives(conns, c.source_num),
        c.sink_type == NEURON ==> survives(conns, c.sink_num),
    ensures
        names_existing(remapped(conns, c), survivors_below(conns, 256) as int),
{
    lemma_survivor_neurons(conns, 256);
    if c.source_type == NEURON {
        assert(survives(conns, (c.source_num as int) as u8));
    }
    if c.sink_type == NEURON {
        assert(survives(conns, (c.sink_num as int) as u8));
    }
}

proof fn lemma_passes_in_range(conns: Seq<Gene>, k: int)
    requires
        io_in_range(conns),
        0 <= k <= conns.len(),
    ensures
        forall|i: int|
            0 <= i < neuron_sink_pass(conns, k).len() ==> names_existing(
                #[trigger] neuron_sink_pass(conns, k)[i],
                survivors_below(conns, 256) as int,
            ),
        forall|i: int|
            0 <= i < action_sink_pass(conns, k).len() ==> names_existing(
                #[trigger] action_sink_pass(conns, k)[i],
                survivors_below(conns, 256) as int,
            ),
    decreases k,
{
    if k > 0 {
        lemma_passes_in_range(conns, k - 1);
        let c = conns[k - 1];
        assert((c.source_type != NEURON ==> c.source_num < NUM_SENSES) && (c.sink_type != NEURON
            ==> c.sink_num < NUM_ACTIONS));
        let n = survivors_below(conns, 256) as int;
        if c.sink_type == NEURON && survives(conns, c.sink_num) && source_kept(conns, c) {
            lemma_remapped_in_range(conns, c);
        }
        if c.sink_type == ACTION && source_kept(conns, c) {
            lemma_remapped_in_range(conns, c);
        }
        let a0 = neuron_sink_pass(conns, k - 1);
        let a1 = neuron_sink_pass(conns, k);
        assert forall|i: int| 0 <= i < a1.len() implies names_existing(#[trigger] a1[i], n) by {
            if i < a0.len() {
                assert(a1[i] == a0[i]);
            }
        }
        let b0 = action_sink_pass(conns, k - 1);
        let b1 = action_sink_pass(conns, k);
        assert forall|i: int| 0 <= i < b1.len() implies names_existing(#[trigger] b1[i], n) by {
            if i < b0.len() {
                assert(b1[i] == b0[i]);
            }
        }
    }
}

/// Every connection wired from a genome names an existing sensor, action
/// or neuron: genes are renumbered into range, and only connections
/// between surviving neurons are kept, with their new numbers, which count
/// the survivors below them.
pub proof fn lemma_wired_in_range(genome: Seq<Gene>, max_neurons: u32)
    requires
        max_neurons > 0,
    ensures
        forall|i: int|
            0 <= i < wired_genes(genome, max_neurons).len() ==> names_existing(
                #[trigger] wired_genes(genome, max_neurons)[i],
                survivor_neurons(renumbered_list(genome, max_neurons), 256).len() as int,
            ),
{
    let conns = renumbered_list(genome, max_neurons);
    assert(io_in_range(conns));
    lemma_passes_in_range(conns, conns.len() as int);
    lemma_survivor_neurons(conns, 256);
    let a = neuron_sink_pass(conns, conns.len() as int);
    let b = action_sink_pass(conns, conns.len() as int);
    assert forall|i: int| 0 <= i < (a + b).len() implies names_existing(
        #[trigger] (a + b)[i],
        survivor_neurons(conns, 256).len() as int,
    ) by {
        if i < a.len() {
            assert((a + b)[i] == a[i]);
        } else {
            assert((a + b)[i] == b[i - a.len()]);
        }
    }
}

} // verus!
