//! Descriptive names of sensors and actions for reports.
use vstd::prelude::*;

use crate::basic_types::Coord;
use crate::genome_neurons::{Gene, Genome, ACTION, SENSOR};
use crate::indiv::Indiv;
use crate::params::Params;
use crate::peeps::Peeps;
use crate::random::{random_uint_range, RandomUintGenerator, RngState};
use crate::sensors_actions::{Action, Sensor, NUM_ACTIONS, NUM_SENSES};
use crate::signals::Signals;

verus! {

/// The descriptive name of a sensor.
pub open spec fn sensor_description(v: Sensor) -> Seq<char> {
    match v {
        Sensor::LocX => "loc X"@,
        Sensor::LocY => "loc Y"@,
        Sensor::BoundaryDistX => "boundary dist X"@,
        Sensor::BoundaryDist => "boundary dist"@,
        Sensor::BoundaryDistY => "boundary dist Y"@,
        Sensor::GeneticSimFwd => "genetic similarity fwd"@,
        Sensor::LastMoveDirX => "last move dir X"@,
        Sensor::LastMoveDirY => "last move dir Y"@,
        Sensor::LongprobePopFwd => "long probe population fwd"@,
        Sensor::LongprobeBarFwd => "long probe barrier fwd"@,
        Sensor::Population => "population"@,
        Sensor::PopulationFwd => "population fwd"@,
        Sensor::PopulationLr => "population LR"@,
        Sensor::Osc1 => "osc1"@,
        Sensor::Age => "age"@,
        Sensor::BarrierFwd => "short probe barrier fwd-rev"@,
        Sensor::BarrierLr => "short probe barrier left-right"@,
        Sensor::Random => "random"@,
        Sensor::Signal0 => "signal 0"@,
        Sensor::Signal0Fwd => "signal 0 fwd"@,
        Sensor::Signal0Lr => "signal 0 LR"@,
        Sensor::NumSenses => "num senses"@,
    }
}

/// The descriptive name of an action.
pub open spec fn action_description(v: Action) -> Seq<char> {
    match v {
        Action::MoveX => "move X"@,
        Action::MoveY => "move Y"@,
        Action::MoveForward => "move fwd"@,
        Action::MoveRl => "move R-L"@,
        Action::MoveRandom => "move random"@,
        Action::SetOscillatorPeriod => "set osc1"@,
        Action::SetLongprobeDist => "set longprobe dist"@,
        Action::SetResponsiveness => "set inv-responsiveness"@,
        Action::EmitSignal0 => "emit signal 0"@,
        Action::MoveEast => "move east"@,
        Action::MoveWest => "move west"@,
        Action::MoveNorth => "move north"@,
        Action::MoveSouth => "move south"@,
        Action::MoveLeft => "move left"@,
        Action::MoveRight => "move right"@,
        Action::MoveReverse => "move reverse"@,
        Action::NumActions => "num actions"@,
        Action::KillForward => "kill fwd"@,
    }
}

/// The short mnemonic of a sensor, as used in network diagrams.
pub open spec fn sensor_mnemonic(v: Sensor) -> Seq<char> {
    match v {
        Sensor::LocX => "Lx"@,
        Sensor::LocY => "Ly"@,
        Sensor::BoundaryDistX => "EDx"@,
        Sensor::BoundaryDist => "ED"@,
        Sensor::BoundaryDistY => "EDy"@,
        Sensor::GeneticSimFwd => "Gen"@,
        Sensor::LastMoveDirX => "LMx"@,
        Sensor::LastMoveDirY => "LMy"@,
        Sensor::LongprobePopFwd => "LPf"@,
        Sensor::LongprobeBarFwd => "LPb"@,
        Sensor::Population => "Pop"@,
        Sensor::PopulationFwd => "Pfd"@,
        Sensor::PopulationLr => "Plr"@,
        Sensor::Osc1 => "Osc"@,
        Sensor::Age => "Age"@,
        Sensor::BarrierFwd => "Bfd"@,
        Sensor::BarrierLr => "Blr"@,
        Sensor::Random => "Rnd"@,
        Sensor::Signal0 => "Sg"@,
        Sensor::Signal0Fwd => "Sfd"@,
        Sensor::Signal0Lr => "Slr"@,
        Sensor::NumSenses => "NS"@,
    }
}

/// The short mnemonic of an action, as used in network diagrams.
pub open spec fn action_mnemonic(v: Action) -> Seq<char> {
    match v {
        Action::MoveX => "MvX"@,
        Action::MoveY => "MvY"@,
        Action::MoveForward => "Mfd"@,
        Action::MoveRl => "MRL"@,
        Action::MoveRandom => "Mrn"@,
        Action::SetOscillatorPeriod => "OSC"@,
        Action::SetLongprobeDist => "LPD"@,
        Action::SetResponsiveness => "Res"@,
        Action::EmitSignal0 => "SG"@,
        Action::MoveEast => "MvE"@,
        Action::MoveWest => "MvW"@,
        Action::MoveNorth => "MvN"@,
        Action::MoveSouth => "MvS"@,
        Action::MoveLeft => "MvL"@,
        Action::MoveRight => "MvR"@,
        Action::MoveReverse => "Mrv"@,
        Action::NumActions => "NA"@,
        Action::KillForward => "Klf"@,
    }
}

/// Reads a sensor back from its mnemonic, by its length and letters.
spec fn sensor_with_mnemonic(m: Seq<char>) -> Sensor {
    let c2 = if m.len() > 2 {
        m[2]
    } else {
        ' '
    };
    if m.len() == 2 {
        if m[0] == 'L' && m[1] == 'x' {
            Sensor::LocX
        } else if m[0] == 'L' {
            Sensor::LocY
        } else if m[0] == 'E' {
            Sensor::BoundaryDist
        } else if m[0] == 'S' {
            Sensor::Signal0
        } else {
            Sensor::NumSenses
        }
    } else if m[0] == 'E' {
        if c2 == 'x' {
            Sensor::BoundaryDistX
        } else {
            Sensor::BoundaryDistY
        }
    } else if m[0] == 'G' {
        Sensor::GeneticSimFwd
    } else if m[0] == 'L' && m[1] == 'M' {
        if c2 == 'x' {
            Sensor::LastMoveDirX
        } else {
            Sensor::LastMoveDirY
        }
    } else if m[0] == 'L' {
        if c2 == 'f' {
            Sensor::LongprobePopFwd
        } else {
            Sensor::LongprobeBarFwd
        }
    } else if m[0] == 'P' {
        if m[1] == 'o' {
            Sensor::Population
        } else if m[1] == 'f' {
            Sensor::PopulationFwd
        } else {
            Sensor::PopulationLr
        }
    } else if m[0] == 'O' {
        Sensor::Osc1
    } else if m[0] == 'A' {
        Sensor::Age
    } else if m[0] == 'B' {
        if m[1] == 'f' {
            Sensor::BarrierFwd
        } else {
            Sensor::BarrierLr
        }
    } else if m[0] == 'R' {
        Sensor::Random
    } else if m[1] == 'f' {
        Sensor::Signal0Fwd
    } else {
        Sensor::Signal0Lr
    }
}

/// Reads an action back from its mnemonic, by its length and letters.
spec fn action_with_mnemonic(m: Seq<char>) -> Action {
    let c2 = if m.len() > 2 {
        m[2]
    } else {
        ' '
    };
    if m.len() == 2 {
        if m[0] == 'S' {
            Action::EmitSignal0
        } else {
            Action::NumActions
        }
    } else if m[0] == 'M' && m[1] == 'v' {
        if c2 == 'X' {
            Action::MoveX
        } else if c2 == 'Y' {
            Action::MoveY
        } else if c2 == 'E' {
            Action::MoveEast
        } else if c2 == 'W' {
            Action::MoveWest
        } else if c2 == 'N' {
            Action::MoveNorth
        } else if c2 == 'S' {
            Action::MoveSouth
        } else if c2 == 'L' {
            Action::MoveLeft
        } else {
            Action::MoveRight
        }
    } else if m[0] == 'M' && m[1] == 'f' {
        Action::MoveForward
    } else if m[0] == 'M' && m[1] == 'R' {
        Action::MoveRl
    } else if m[0] == 'M' {
        if c2 == 'n' {
            Action::MoveRandom
        } else {
            Action::MoveReverse
        }
    } else if m[0] == 'O' {
        Action::SetOscillatorPeriod
    } else if m[0] == 'L' {
        Action::SetLongprobeDist
    } else if m[0] == 'R' {
        Action::SetResponsiveness
    } else {
        Action::KillForward
    }
}

/// A sensor's mnemonic is a nonempty word of letters that names it alone.
proof fn lemma_sensor_mnemonic_reads_back(a: Sensor)
    ensures
        sensor_with_mnemonic(sensor_mnemonic(a)) == a,
        sensor_mnemonic(a).len() > 0,
        forall|i: int|
            0 <= i < sensor_mnemonic(a).len() ==> ('a' <= #[trigger] sensor_mnemonic(a)[i] <= 'z' || 'A' <= sensor_mnemonic(a)[i] <= 'Z'),
{
    match a {
        Sensor::LocX => {
            reveal_strlit("Lx");
            assert(sensor_mnemonic(a) == "Lx"@);
        },
        Sensor::LocY => {
            reveal_strlit("Ly");
            assert(sensor_mnemonic(a) == "Ly"@);
        },
        Sensor::BoundaryDistX => {
            reveal_strlit("EDx");
            assert(sensor_mnemonic(a) == "EDx"@);
        },
        Sensor::BoundaryDist => {
            reveal_strlit("ED");
            assert(sensor_mnemonic(a) == "ED"@);
        },
        Sensor::BoundaryDistY => {
            reveal_strlit("EDy");
            assert(sensor_mnemonic(a) == "EDy"@);
        },
        Sensor::GeneticSimFwd => {
            reveal_strlit("Gen");
            assert(sensor_mnemonic(a) == "Gen"@);
        },
        Sensor::LastMoveDirX => {
            reveal_strlit("LMx");
            assert(sensor_mnemonic(a) == "LMx"@);
        },
        Sensor::LastMoveDirY => {
            reveal_strlit("LMy");
            assert(sensor_mnemonic(a) == "LMy"@);
        },
        Sensor::LongprobePopFwd => {
            reveal_strlit("LPf");
            assert(sensor_mnemonic(a) == "LPf"@);
        },
        Sensor::LongprobeBarFwd => {
            reveal_strlit("LPb");
            assert(sensor_mnemonic(a) == "LPb"@);
        },
        Sensor::Population => {
            reveal_strlit("Pop");
            assert(sensor_mnemonic(a) == "Pop"@);
        },
        Sensor::PopulationFwd => {
            reveal_strlit("Pfd");
            assert(sensor_mnemonic(a) == "Pfd"@);
        },
        Sensor::PopulationLr => {
            reveal_strlit("Plr");
            assert(sensor_mnemonic(a) == "Plr"@);
        },
        Sensor::Osc1 => {
            reveal_strlit("Osc");
            assert(sensor_mnemonic(a) == "Osc"@);
        },
        Sensor::Age => {
            reveal_strlit("Age");
            assert(sensor_mnemonic(a) == "Age"@);
        },
        Sensor::BarrierFwd => {
            reveal_strlit("Bfd");
            assert(sensor_mnemonic(a) == "Bfd"@);
        },
        Sensor::BarrierLr => {
            reveal_strlit("Blr");
            assert(sensor_mnemonic(a) == "Blr"@);
        },
        Sensor::Random => {
            reveal_strlit("Rnd");
            assert(sensor_mnemonic(a) == "Rnd"@);
        },
        Sensor::Signal0 => {
            reveal_strlit("Sg");
            assert(sensor_mnemonic(a) == "Sg"@);
        },
        Sensor::Signal0Fwd => {
            reveal_strlit("Sfd");
            assert(sensor_mnemonic(a) == "Sfd"@);
        },
        Sensor::Signal0Lr => {
            reveal_strlit("Slr");
            assert(sensor_mnemonic(a) == "Slr"@);
        },
        Sensor::NumSenses => {
            reveal_strlit("NS");
            assert(sensor_mnemonic(a) == "NS"@);
        },
    }
}

/// An action's mnemonic is a nonempty word of letters that names it alone.
proof fn lemma_action_mnemonic_reads_back(a: Action)
    ensures
        action_with_mnemonic(action_mnemonic(a)) == a,
        action_mnemonic(a).len() > 0,
        forall|i: int|
            0 <= i < action_mnemonic(a).len() ==> ('a' <= #[trigger] action_mnemonic(a)[i] <= 'z' || 'A' <= action_mnemonic(a)[i] <= 'Z'),
{
    match a {
        Action::MoveX => {
            reveal_strlit("MvX");
            assert(action_mnemonic(a) == "MvX"@);
        },
        Action::MoveY => {
            reveal_strlit("MvY");
            assert(action_mnemonic(a) == "MvY"@);
        },
        Action::MoveForward => {
            reveal_strlit("Mfd");
            assert(action_mnemonic(a) == "Mfd"@);
        },
        Action::MoveRl => {
            reveal_strlit("MRL");
            assert(action_mnemonic(a) == "MRL"@);
        },
        Action::MoveRandom => {
            reveal_strlit("Mrn");
            assert(action_mnemonic(a) == "Mrn"@);
        },
        Action::SetOscillatorPeriod => {
            reveal_strlit("OSC");
            assert(action_mnemonic(a) == "OSC"@);
        },
        Action::SetLongprobeDist => {
            reveal_strlit("LPD");
            assert(action_mnemonic(a) == "LPD"@);
        },
        Action::SetResponsiveness => {
            reveal_strlit("Res");
            assert(action_mnemonic(a) == "Res"@);
        },
        Action::EmitSignal0 => {
            reveal_strlit("SG");
            assert(action_mnemonic(a) == "SG"@);
        },
        Action::MoveEast => {
            reveal_strlit("MvE");
            assert(action_mnemonic(a) == "MvE"@);
        },
        Action::MoveWest => {
            reveal_strlit("MvW");
            assert(action_mnemonic(a) == "MvW"@);
        },
        Action::MoveNorth => {
            reveal_strlit("MvN");
            assert(action_mnemonic(a) == "MvN"@);
        },
        Action::MoveSouth => {
            reveal_strlit("MvS");
            assert(action_mnemonic(a) == "MvS"@);
        },
        Action::MoveLeft => {
            reveal_strlit("MvL");
            assert(action_mnemonic(a) == "MvL"@);
        },
        Action::MoveRight => {
            reveal_strlit("MvR");
            assert(action_mnemonic(a) == "MvR"@);
        },
        Action::MoveReverse => {
            reveal_strlit("Mrv");
            assert(action_mnemonic(a) == "Mrv"@);
        },
        Action::NumActions => {
            reveal_strlit("NA");
            assert(action_mnemonic(a) == "NA"@);
        },
        Action::KillForward => {
            reveal_strlit("Klf");
            assert(action_mnemonic(a) == "Klf"@);
        },
    }
}

/// Every sensor has its own mnemonic, a nonempty token of letters
/// (a single word for network diagrams).
pub proof fn lemma_sensor_mnemonics_distinct(a: Sensor, b: Sensor)
    ensures
        a != b ==> sensor_mnemonic(a) != sensor_mnemonic(b),
        sensor_mnemonic(a).len() > 0,
        forall|i: int|
            0 <= i < sensor_mnemonic(a).len() ==> ('a' <= #[trigger] sensor_mnemonic(a)[i] <= 'z' || 'A' <= sensor_mnemonic(a)[i] <= 'Z'),
{
    lemma_sensor_mnemonic_reads_back(a);
    lemma_sensor_mnemonic_reads_back(b);
}

/// Every action has its own mnemonic, a nonempty token of letters
/// (a single word for network diagrams).
pub proof fn lemma_action_mnemonics_distinct(a: Action, b: Action)
    ensures
        a != b ==> action_mnemonic(a) != action_mnemonic(b),
        action_mnemonic(a).len() > 0,
        forall|i: int|
            0 <= i < action_mnemonic(a).len() ==> ('a' <= #[trigger] action_mnemonic(a)[i] <= 'z' || 'A' <= action_mnemonic(a)[i] <= 'Z'),
{
    lemma_action_mnemonic_reads_back(a);
    lemma_action_mnemonic_reads_back(b);
}

/// The descriptive name of a sensor, e.g. `loc X`.
pub fn sensor_name(sensor: Sensor) -> (r: &'static str)
    ensures
        r@ == sensor_description(sensor),
{
    match sensor {
        Sensor::LocX => "loc X",
        Sensor::LocY => "loc Y",
        Sensor::BoundaryDistX => "boundary dist X",
        Sensor::BoundaryDist => "boundary dist",
        Sensor::BoundaryDistY => "boundary dist Y",
        Sensor::GeneticSimFwd => "genetic similarity fwd",
        Sensor::LastMoveDirX => "last move dir X",
        Sensor::LastMoveDirY => "last move dir Y",
        Sensor::LongprobePopFwd => "long probe population fwd",
        Sensor::LongprobeBarFwd => "long probe barrier fwd",
        Sensor::Population => "population",
        Sensor::PopulationFwd => "population fwd",
        Sensor::PopulationLr => "population LR",
        Sensor::Osc1 => "osc1",
        Sensor::Age => "age",
        Sensor::BarrierFwd => "short probe barrier fwd-rev",
        Sensor::BarrierLr => "short probe barrier left-right",
        Sensor::Random => "random",
        Sensor::Signal0 => "signal 0",
        Sensor::Signal0Fwd => "signal 0 fwd",
        Sensor::Signal0Lr => "signal 0 LR",
        Sensor::NumSenses => "num senses",
    }
}

/// The descriptive name of an action, e.g. `move east`.
pub fn action_name(action: Action) -> (r: &'static str)
    ensures
        r@ == action_description(action),
{
    match action {
        Action::MoveX => "move X",
        Action::MoveY => "move Y",
        Action::MoveForward => "move fwd",
        Action::MoveRl => "move R-L",
        Action::MoveRandom => "move random",
        Action::SetOscillatorPeriod => "set osc1",
        Action::SetLongprobeDist => "set longprobe dist",
        Action::SetResponsiveness => "set inv-responsiveness",
        Action::EmitSignal0 => "emit signal 0",
        Action::MoveEast => "move east",
        Action::MoveWest => "move west",
        Action::MoveNorth => "move north",
        Action::MoveSouth => "move south",
        Action::MoveLeft => "move left",
        Action::MoveRight => "move right",
        Action::MoveReverse => "move reverse",
        Action::NumActions => "num actions",
        Action::KillForward => "kill fwd",
    }
}

/// The mnemonic of a sensor, e.g. `Lx`.
pub fn sensor_short_name(sensor: Sensor) -> (r: &'static str)
    ensures
        r@ == sensor_mnemonic(sensor),
{
    match sensor {
        Sensor::LocX => "Lx",
        Sensor::LocY => "Ly",
        Sensor::BoundaryDistX => "EDx",
        Sensor::BoundaryDist => "ED",
        Sensor::BoundaryDistY => "EDy",
        Sensor::GeneticSimFwd => "Gen",
        Sensor::LastMoveDirX => "LMx",
        Sensor::LastMoveDirY => "LMy",
        Sensor::LongprobePopFwd => "LPf",
        Sensor::LongprobeBarFwd => "LPb",
        Sensor::Population => "Pop",
        Sensor::PopulationFwd => "Pfd",
        Sensor::PopulationLr => "Plr",
        Sensor::Osc1 => "Osc",
        Sensor::Age => "Age",
        Sensor::BarrierFwd => "Bfd",
        Sensor::BarrierLr => "Blr",
        Sensor::Random => "Rnd",
        Sensor::Signal0 => "Sg",
        Sensor::Signal0Fwd => "Sfd",
        Sensor::Signal0Lr => "Slr",
        Sensor::NumSenses => "NS",
    }
}

/// The mnemonic of an action, e.g. `MvE`.
pub fn action_short_name(action: Action) -> (r: &'static str)
    ensures
        r@ == action_mnemonic(action),
{
    match action {
        Action::MoveX => "MvX",
        Action::MoveY => "MvY",
        Action::MoveForward => "Mfd",
        Action::MoveRl => "MRL",
        Action::MoveRandom => "Mrn",
        Action::SetOscillatorPeriod => "OSC",
        Action::SetLongprobeDist => "LPD",
        Action::SetResponsiveness => "Res",
        Action::EmitSignal0 => "SG",
        Action::MoveEast => "MvE",
        Action::MoveWest => "MvW",
        Action::MoveNorth => "MvN",
        Action::MoveSouth => "MvS",
        Action::MoveLeft => "MvL",
        Action::MoveRight => "MvR",
        Action::MoveReverse => "Mrv",
        Action::NumActions => "NA",
        Action::KillForward => "Klf",
    }
}

/// The printed word of a gene: its four type and number bytes read as a
/// little-endian `u32`.
pub open spec fn gene_word(g: Gene) -> u32 {
    (g.source_type as int + 256 * g.source_num as int + 65536 * g.sink_type as int + 16777216
        * g.sink_num as int) as u32
}

/// The printed words of a genome, one per gene (see `gene_word`).
pub fn genome_words(genome: &Genome) -> (w: Vec<u32>)
    ensures
        w@.len() == genome@.len(),
        forall|i: int| 0 <= i < w@.len() ==> #[trigger] w@[i] == gene_word(genome@[i]),
{
    let mut w: Vec<u32> = Vec::new();
    let mut i: usize = 0;
    while i < genome.len()
        invariant
            i <= genome@.len(),
            w@.len() == i,
            forall|k: int| 0 <= k < i ==> #[trigger] w@[k] == gene_word(genome@[k]),
        decreases genome.len() - i,
    {
        let g = genome[i];
        let word: u32 = g.source_type as u32 + 256 * g.source_num as u32 + 65536 * g.sink_type as u32
            + 16777216 * g.sink_num as u32;
        w.push(word);
        i = i + 1;
    }
    w
}

/// The living individuals among the indices `1..=k` (each taken as a
/// `u16`), in index order.
pub open spec fn living_indices(inds: Seq<Indiv>, k: int) -> Seq<u32>
    decreases k,
{
    if k <= 0 {
        Seq::empty()
    } else {
        let index = k as u16;
        if index != 0 && index < inds.len() && inds[index as int].alive {
            living_indices(inds, k - 1).push(k as u32)
        } else {
            living_indices(inds, k - 1)
        }
    }
}

proof fn lemma_living_indices(inds: Seq<Indiv>, k: int)
    ensures
        k >= 0 ==> living_indices(inds, k).len() <= k,
    decreases k,
{
    if k > 0 {
        lemma_living_indices(inds, k - 1);
    }
}

/// The indices of the first `count` living individuals among `1..=population`,
/// whose genomes a sample report shows.
pub fn sample_indices(count: u32, peeps: &Peeps, params: &Params) -> (r: Vec<u32>)
    ensures
        ({
            let all = living_indices(peeps.individuals@, params.population as int);
            r@ == all.subrange(0, if all.len() < count { all.len() as int } else { count as int })
        }),
{
    let mut r: Vec<u32> = Vec::new();
    let mut index: u64 = 1;
    let ghost all = living_indices(peeps.individuals@, params.population as int);
    while r.len() < count as usize && index <= params.population as u64
        invariant
            1 <= index <= params.population + 1,
            r@ == living_indices(peeps.individuals@, index - 1),
            r@.len() <= count,
            all == living_indices(peeps.individuals@, params.population as int),
        decreases params.population + 1 - index,
    {
        proof {
            lemma_living_indices(peeps.individuals@, index as int);
        }
        match peeps.get(index as u16) {
            Some(indiv) => {
                if indiv.alive {
                    r.push(index as u32);
                }
            },
            None => {},
        }
        index = index + 1;
    }
    proof {
        lemma_living_prefix(peeps.individuals@, index - 1, params.population as int);
    }
    r
}

/// The living indices up to `j` start with those up to `k <= j`.
proof fn lemma_living_prefix(inds: Seq<Indiv>, k: int, j: int)
    requires
        0 <= k <= j,
    ensures
        living_indices(inds, j).len() >= living_indices(inds, k).len(),
        living_indices(inds, j).subrange(0, living_indices(inds, k).len() as int) == living_indices(inds, k),
        k < j && living_indices(inds, k).len() == living_indices(inds, j).len() ==> living_indices(inds, j) == living_indices(inds, k),
    decreases j - k,
{
    if k < j {
        lemma_living_prefix(inds, k, j - 1);
        let a = living_indices(inds, k);
        let b = living_indices(inds, j - 1);
        let c = living_indices(inds, j);
        if c.len() > b.len() {
            assert(c.subrange(0, a.len() as int) == b.subrange(0, a.len() as int));
        }
    }
}

/// How many connections of the living individuals among the indices
/// `1..=k` come from sensor `s` (when `sensor`) or go to action `s`.
pub open spec fn references(inds: Seq<Indiv>, k: int, s: int, sensor: bool) -> nat
    decreases k,
{
    if k <= 0 {
        0
    } else {
        let index = k as u16;
        references(inds, k - 1, s, sensor) + if index != 0 && index < inds.len()
            && inds[index as int].alive {
            connection_refs(inds[index as int].nnet.connections@, s, sensor, inds[index as int].nnet.connections@.len() as int)
        } else {
            0
        }
    }
}

/// How many of the first `k` connections come from sensor `s` (when
/// `sensor`) or go to action `s`.
pub open spec fn connection_refs(c: Seq<crate::neural_net::Connection>, s: int, sensor: bool, k: int) -> nat
    decreases k,
{
    if k <= 0 {
        0
    } else {
        connection_refs(c, s, sensor, k - 1) + if (sensor && c[k - 1].source_type == SENSOR
            && c[k - 1].source_num == s) || (!sensor && c[k - 1].sink_type == ACTION && c[k
            - 1].sink_num == s) {
            1nat
        } else {
            0nat
        }
    }
}

/// How many connections of the living population use each sensor and each
/// action: `r.0[s]` counts those from sensor `s`, `r.1[a]` those to action
/// `a` (see `references`).
pub fn sensor_action_reference_counts(peeps: &Peeps, params: &Params) -> (r: (Vec<u64>, Vec<u64>))
    requires
        forall|i: int|
            0 <= i < peeps.individuals@.len() ==> #[trigger] peeps.individuals@[i].nnet.connections@.len()
                < 0x1_0000_0000,
    ensures
        r.0@.len() == NUM_SENSES,
        r.1@.len() == NUM_ACTIONS,
        forall|s: int|
            0 <= s < NUM_SENSES ==> #[trigger] r.0@[s] == references(
                peeps.individuals@,
                params.population as int,
                s,
                true,
            ),
        forall|a: int|
            0 <= a < NUM_ACTIONS ==> #[trigger] r.1@[a] == references(
                peeps.individuals@,
                params.population as int,
                a,
                false,
            ),
{
    let mut sensors: Vec<u64> = vec![0u64; NUM_SENSES];
    let mut actions: Vec<u64> = vec![0u64; NUM_ACTIONS];
    let ghost inds = peeps.individuals@;
    let mut index: u64 = 1;
    while index <= params.population as u64
        invariant
            1 <= index <= params.population + 1,
            inds == peeps.individuals@,
            forall|i: int|
                0 <= i < inds.len() ==> #[trigger] inds[i].nnet.connections@.len() < 0x1_0000_0000,
            sensors@.len() == NUM_SENSES,
            actions@.len() == NUM_ACTIONS,
            forall|s: int|
                0 <= s < NUM_SENSES ==> #[trigger] sensors@[s] == references(inds, index - 1, s, true),
            forall|a: int|
                0 <= a < NUM_ACTIONS ==> #[trigger] actions@[a] == references(inds, index - 1, a, false),
            forall|s: int| 0 <= s < NUM_SENSES ==> #[trigger] references(inds, index - 1, s, true) <= (index - 1) * 0x1_0000_0000,
            forall|a: int| 0 <= a < NUM_ACTIONS ==> #[trigger] references(inds, index - 1, a, false) <= (index - 1) * 0x1_0000_0000,
        decreases params.population + 1 - index,
    {
        let k = index as u16;
        let live = match peeps.get(k) {
            Some(indiv) => indiv.alive,
            None => false,
        };
        if live {
            let conns = &peeps.individuals[k as usize].nnet.connections;
            let ghost cs = conns@;
            let ghost s0 = sensors@;
            let ghost a0 = actions@;
            let mut j: usize = 0;
            while j < conns.len()
                invariant
                    j <= cs.len() < 0x1_0000_0000,
                    cs == conns@,
                    sensors@.len() == NUM_SENSES,
                    actions@.len() == NUM_ACTIONS,
                    forall|s: int| 0 <= s < NUM_SENSES ==> s0[s] <= (index - 1) * 0x1_0000_0000,
                    forall|a: int| 0 <= a < NUM_ACTIONS ==> a0[a] <= (index - 1) * 0x1_0000_0000,
                    index <= 0x1_0000_0000,
                    forall|s: int|
                        0 <= s < NUM_SENSES ==> #[trigger] sensors@[s] == s0[s] + connection_refs(cs, s, true, j as int),
                    forall|a: int|
                        0 <= a < NUM_ACTIONS ==> #[trigger] actions@[a] == a0[a] + connection_refs(cs, a, false, j as int),
                    forall|s: int| #![trigger connection_refs(cs, s, true, j as int)] 0 <= s < NUM_SENSES ==> connection_refs(cs, s, true, j as int) <= j,
                    forall|a: int| #![trigger connection_refs(cs, a, false, j as int)] 0 <= a < NUM_ACTIONS ==> connection_refs(cs, a, false, j as int) <= j,
                decreases cs.len() - j,
            {
                let c = &conns[j];
                proof {
                    assert forall|s: int| #![trigger connection_refs(cs, s, true, j + 1)] 0 <= s < NUM_SENSES implies connection_refs(cs, s, true, j + 1) <= j + 1 by {
                        assert(connection_refs(cs, s, true, j as int) <= j);
                    }
                    assert forall|a: int| #![trigger connection_refs(cs, a, false, j + 1)] 0 <= a < NUM_ACTIONS implies connection_refs(cs, a, false, j + 1) <= j + 1 by {
                        assert(connection_refs(cs, a, false, j as int) <= j);
                    }
                }
                if c.source_type == SENSOR && (c.source_num as usize) < NUM_SENSES {
                    let s = c.source_num as usize;
                    assert(connection_refs(cs, s as int, true, j as int) <= j);
                    sensors.set(s, sensors[s] + 1);
                }
                if c.sink_type == ACTION && (c.sink_num as usize) < NUM_ACTIONS {
                    let a = c.sink_num as usize;
                    assert(connection_refs(cs, a as int, false, j as int) <= j);
                    actions.set(a, actions[a] + 1);
                }
                proof {
                    assert forall|s: int| 0 <= s < NUM_SENSES implies #[trigger] sensors@[s] == s0[s] + connection_refs(cs, s, true, j + 1) by {
                        assert(connection_refs(cs, s, true, j + 1) == connection_refs(cs, s, true, j as int) + if (c.source_type == SENSOR && c.source_num == s) { 1nat } else { 0nat });
                    }
                    assert forall|a: int| 0 <= a < NUM_ACTIONS implies #[trigger] actions@[a] == a0[a] + connection_refs(cs, a, false, j + 1) by {
                        assert(connection_refs(cs, a, false, j + 1) == connection_refs(cs, a, false, j as int) + if (c.sink_type == ACTION && c.sink_num == a) { 1nat } else { 0nat });
                    }
                }
                j = j + 1;
            }
            proof {
                assert(peeps.individuals@[k as int].nnet.connections@ == cs);
                assert forall|s: int| 0 <= s < NUM_SENSES implies #[trigger] references(inds, index as int, s, true) <= index * 0x1_0000_0000 by {
                    assert(references(inds, index - 1, s, true) <= (index - 1) * 0x1_0000_0000);
                }
                assert forall|a: int| 0 <= a < NUM_ACTIONS implies #[trigger] references(inds, index as int, a, false) <= index * 0x1_0000_0000 by {
                    assert(references(inds, index - 1, a, false) <= (index - 1) * 0x1_0000_0000);
                }
            }
        } else {
            proof {
                assert forall|s: int| 0 <= s < NUM_SENSES implies #[trigger] references(inds, index as int, s, true) <= index * 0x1_0000_0000 by {
                    assert(references(inds, index - 1, s, true) <= (index - 1) * 0x1_0000_0000);
                }
                assert forall|a: int| 0 <= a < NUM_ACTIONS implies #[trigger] references(inds, index as int, a, false) <= index * 0x1_0000_0000 by {
                    assert(references(inds, index - 1, a, false) <= (index - 1) * 0x1_0000_0000);
                }
            }
        }
        index = index + 1;
    }
    (sensors, actions)
}

/// The level of signal layer 0 that the usage report reads at column `x`
/// and row `y` (each taken as an `i16`).
pub open spec fn layer0_level(signals: Signals, x: int, y: int) -> u8 {
    signals.magnitude_at(0, (x as i16) as int, (y as i16) as int)
}

/// The cells with a nonzero level among rows `0..k` of column `x`, and
/// the sum of their levels.
pub open spec fn column_use(signals: Signals, x: int, k: int) -> (nat, nat)
    decreases k,
{
    if k <= 0 {
        (0, 0)
    } else {
        let prev = column_use(signals, x, k - 1);
        let v = layer0_level(signals, x, k - 1);
        if v != 0 {
            (prev.0 + 1, prev.1 + v as nat)
        } else {
            prev
        }
    }
}

/// The cells with a nonzero level among columns `0..k` of `rows` rows, and
/// the sum of their levels.
pub open spec fn area_use(signals: Signals, rows: int, k: int) -> (nat, nat)
    decreases k,
{
    if k <= 0 {
        (0, 0)
    } else {
        let prev = area_use(signals, rows, k - 1);
        let c = column_use(signals, k - 1, rows);
        (prev.0 + c.0, prev.1 + c.1)
    }
}

proof fn lemma_column_use(signals: Signals, x: int, k: int)
    requires
        0 <= k,
    ensures
        column_use(signals, x, k).0 <= k,
        column_use(signals, x, k).1 <= 255 * k,
    decreases k,
{
    if k > 0 {
        lemma_column_use(signals, x, k - 1);
    }
}

/// How many cells of signal layer 0 in the `size_x` by `size_y` area hold
/// a nonzero level, and the sum of the levels (see `area_use`); the report
/// divides both by the number of cells.
pub fn signal_use(signals: &Signals, params: &Params) -> (r: (u64, u64))
    requires
        signals.wf(),
    ensures
        (r.0 as nat, r.1 as nat) == area_use(*signals, params.size_y as int, params.size_x as int),
{
    let mut count: u64 = 0;
    let mut sum: u64 = 0;
    let mut x: u16 = 0;
    while x < params.size_x
        invariant
            x <= params.size_x,
            signals.wf(),
            (count as nat, sum as nat) == area_use(*signals, params.size_y as int, x as int),
            count <= x * 0x1_0000,
            sum <= x * 255 * 0x1_0000,
        decreases params.size_x - x,
    {
        let mut y: u16 = 0;
        let mut c: u64 = 0;
        let mut t: u64 = 0;
        while y < params.size_y
            invariant
                y <= params.size_y,
                x < params.size_x,
                signals.wf(),
                (c as nat, t as nat) == column_use(*signals, x as int, y as int),
            decreases params.size_y - y,
        {
            proof {
                lemma_column_use(*signals, x as int, y as int);
            }
            let m = signals.get_magnitude(0, Coord { x: x as i16, y: y as i16 });
            if m != 0 {
                c = c + 1;
                t = t + m as u64;
            }
            y = y + 1;
        }
        proof {
            lemma_column_use(*signals, x as int, params.size_y as int);
        }
        count = count + c;
        sum = sum + t;
        x = x + 1;
    }
    (count, sum)
}

/// The genome lengths summed, and the draws counted, by the first `count`
/// draws of an average genome length estimate from generator state `s`:
/// each draw picks an index in `1..=population` and counts when it names
/// an individual.
pub open spec fn length_samples(inds: Seq<Indiv>, population: u32, s: RngState, count: nat) -> (nat, nat)
    decreases count,
{
    if count == 0 {
        (0, 0)
    } else {
        let prev = length_samples(inds, population, s, (count - 1) as nat);
        let index = (s.advance((count - 1) as nat).next_output() % population + 1) as u16;
        if index != 0 && index < inds.len() {
            (prev.0 + inds[index as int].genome@.len(), prev.1 + 1)
        } else {
            prev
        }
    }
}

/// The sum of the genome lengths of 100 sampled individuals and the number
/// of samples (see `length_samples`); the average length is their quotient,
/// 0 without samples.
pub fn average_genome_length(peeps: &Peeps, params: &Params, rng: &mut RandomUintGenerator) -> (r: (u64, u32))
    requires
        params.population >= 1,
        forall|i: int|
            0 <= i < peeps.individuals@.len() ==> #[trigger] peeps.individuals@[i].genome@.len()
                <= u32::MAX,
    ensures
        (r.0 as nat, r.1 as nat) == length_samples(peeps.individuals@, params.population, old(rng)@, 100),
        final(rng)@ == old(rng)@.advance(100),
{
    let ghost s = old(rng)@;
    let mut sum: u64 = 0;
    let mut samples: u32 = 0;
    let mut k: u32 = 0;
    while k < 100
        invariant
            k <= 100,
            params.population >= 1,
            forall|i: int|
                0 <= i < peeps.individuals@.len() ==> #[trigger] peeps.individuals@[i].genome@.len()
                    <= u32::MAX,
            (sum as nat, samples as nat) == length_samples(peeps.individuals@, params.population, s, k as nat),
            samples <= k,
            sum <= k * 0x1_0000_0000,
            rng@ == s.advance(k as nat),
        decreases 100 - k,
    {
        let index = random_uint_range(rng, 1, params.population);
        proof {
            crate::genome_neurons::lemma_advance_next(s, k as nat);
        }
        match peeps.get(index as u16) {
            Some(indiv) => {
                sum = sum + indiv.genome.len() as u64;
                samples = samples + 1;
            },
            None => {},
        }
        k = k + 1;
    }
    (sum, samples)
}

} // verus!
