//! The sensory input neurons and action output neurons an individual can have.
use vstd::prelude::*;

verus! {

/// Sensory inputs. The ones before `NumSenses` are active in the simulator.
#[derive(Debug, Clone, Copy, PartialEq, Eq, Structural, Hash)]
pub enum Sensor {
    LocX,
    LocY,
    BoundaryDistX,
    BoundaryDist,
    BoundaryDistY,
    GeneticSimFwd,
    LastMoveDirX,
    LastMoveDirY,
    LongprobePopFwd,
    LongprobeBarFwd,
    Population,
    PopulationFwd,
    PopulationLr,
    Osc1,
    Age,
    BarrierFwd,
    BarrierLr,
    Random,
    Signal0,
    Signal0Fwd,
    Signal0Lr,
    NumSenses,
}

/// Action outputs. The ones before `NumActions` are active in the simulator.
#[derive(Debug, Clone, Copy, PartialEq, Eq, Structural, Hash)]
pub enum Action {
    MoveX,
    MoveY,
    MoveForward,
    MoveRl,
    MoveRandom,
    SetOscillatorPeriod,
    SetLongprobeDist,
    SetResponsiveness,
    EmitSignal0,
    MoveEast,
    MoveWest,
    MoveNorth,
    MoveSouth,
    MoveLeft,
    MoveRight,
    MoveReverse,
    NumActions,
    KillForward,
}

/// The number of active sensors.
pub const NUM_SENSES: usize = 21;

/// The number of active actions.
pub const NUM_ACTIONS: usize = 16;

/// The position of a sensor in the declaration of `Sensor`.
pub open spec fn sensor_index(v: Sensor) -> int {
    match v {
        Sensor::LocX => 0,
        Sensor::LocY => 1,
        Sensor::BoundaryDistX => 2,
        Sensor::BoundaryDist => 3,
        Sensor::BoundaryDistY => 4,
        Sensor::GeneticSimFwd => 5,
        Sensor::LastMoveDirX => 6,
        Sensor::LastMoveDirY => 7,
        Sensor::LongprobePopFwd => 8,
        Sensor::LongprobeBarFwd => 9,
        Sensor::Population => 10,
        Sensor::PopulationFwd => 11,
        Sensor::PopulationLr => 12,
        Sensor::Osc1 => 13,
        Sensor::Age => 14,
        Sensor::BarrierFwd => 15,
        Sensor::BarrierLr => 16,
        Sensor::Random => 17,
        Sensor::Signal0 => 18,
        Sensor::Signal0Fwd => 19,
        Sensor::Signal0Lr => 20,
        Sensor::NumSenses => 21,
    }
}

/// The position of an action in the declaration of `Action`.
pub open spec fn action_index(v: Action) -> int {
    match v {
        Action::MoveX => 0,
        Action::MoveY => 1,
        Action::MoveForward => 2,
        Action::MoveRl => 3,
        Action::MoveRandom => 4,
        Action::SetOscillatorPeriod => 5,
        Action::SetLongprobeDist => 6,
        Action::SetResponsiveness => 7,
        Action::EmitSignal0 => 8,
        Action::MoveEast => 9,
        Action::MoveWest => 10,
        Action::MoveNorth => 11,
        Action::MoveSouth => 12,
        Action::MoveLeft => 13,
        Action::MoveRight => 14,
        Action::MoveReverse => 15,
        Action::NumActions => 16,
        Action::KillForward => 17,
    }
}

/// The sensor at position `i` of the declaration (`NumSenses` past the end).
pub open spec fn sensor_at(i: int) -> Sensor {
    if i == 0 {
        Sensor::LocX
    } else if i == 1 {
        Sensor::LocY
    } else if i == 2 {
        Sensor::BoundaryDistX
    } else if i == 3 {
        Sensor::BoundaryDist
    } else if i == 4 {
        Sensor::BoundaryDistY
    } else if i == 5 {
        Sensor::GeneticSimFwd
    } else if i == 6 {
        Sensor::LastMoveDirX
    } else if i == 7 {
        Sensor::LastMoveDirY
    } else if i == 8 {
        Sensor::LongprobePopFwd
    } else if i == 9 {
        Sensor::LongprobeBarFwd
    } else if i == 10 {
        Sensor::Population
    } else if i == 11 {
        Sensor::PopulationFwd
    } else if i == 12 {
        Sensor::PopulationLr
    } else if i == 13 {
        Sensor::Osc1
    } else if i == 14 {
        Sensor::Age
    } else if i == 15 {
        Sensor::BarrierFwd
    } else if i == 16 {
        Sensor::BarrierLr
    } else if i == 17 {
        Sensor::Random
    } else if i == 18 {
        Sensor::Signal0
    } else if i == 19 {
        Sensor::Signal0Fwd
    } else if i == 20 {
        Sensor::Signal0Lr
    } else if i == 21 {
        Sensor::NumSenses
    } else {
        Sensor::NumSenses
    }
}

/// The action at position `i` of the declaration (`NumActions` past the end).
pub open spec fn action_at(i: int) -> Action {
    if i == 0 {
        Action::MoveX
    } else if i == 1 {
        Action::MoveY
    } else if i == 2 {
        Action::MoveForward
    } else if i == 3 {
        Action::MoveRl
    } else if i == 4 {
        Action::MoveRandom
    } else if i == 5 {
        Action::SetOscillatorPeriod
    } else if i == 6 {
        Action::SetLongprobeDist
    } else if i == 7 {
        Action::SetResponsiveness
    } else if i == 8 {
        Action::EmitSignal0
    } else if i == 9 {
        Action::MoveEast
    } else if i == 10 {
        Action::MoveWest
    } else if i == 11 {
        Action::MoveNorth
    } else if i == 12 {
        Action::MoveSouth
    } else if i == 13 {
        Action::MoveLeft
    } else if i == 14 {
        Action::MoveRight
    } else if i == 15 {
        Action::MoveReverse
    } else if i == 16 {
        Action::NumActions
    } else if i == 17 {
        Action::KillForward
    } else {
        Action::NumActions
    }
}

impl Sensor {
    /// The position of this sensor in the declaration.
    pub fn as_usize(&self) -> (r: usize)
        ensures
            r as int == sensor_index(*self),
    {
        match self {
            Sensor::LocX => 0,
            Sensor::LocY => 1,
            Sensor::BoundaryDistX => 2,
            Sensor::BoundaryDist => 3,
            Sensor::BoundaryDistY => 4,
            Sensor::GeneticSimFwd => 5,
            Sensor::LastMoveDirX => 6,
            Sensor::LastMoveDirY => 7,
            Sensor::LongprobePopFwd => 8,
            Sensor::LongprobeBarFwd => 9,
            Sensor::Population => 10,
            Sensor::PopulationFwd => 11,
            Sensor::PopulationLr => 12,
            Sensor::Osc1 => 13,
            Sensor::Age => 14,
            Sensor::BarrierFwd => 15,
            Sensor::BarrierLr => 16,
            Sensor::Random => 17,
            Sensor::Signal0 => 18,
            Sensor::Signal0Fwd => 19,
            Sensor::Signal0Lr => 20,
            Sensor::NumSenses => 21,
        }
    }
}

impl Action {
    /// The position of this action in the declaration.
    pub fn as_usize(&self) -> (r: usize)
        ensures
            r as int == action_index(*self),
    {
        match self {
            Action::MoveX => 0,
            Action::MoveY => 1,
            Action::MoveForward => 2,
            Action::MoveRl => 3,
            Action::MoveRandom => 4,
            Action::SetOscillatorPeriod => 5,
            Action::SetLongprobeDist => 6,
            Action::SetResponsiveness => 7,
            Action::EmitSignal0 => 8,
            Action::MoveEast => 9,
            Action::MoveWest => 10,
            Action::MoveNorth => 11,
            Action::MoveSouth => 12,
            Action::MoveLeft => 13,
            Action::MoveRight => 14,
            Action::MoveReverse => 15,
            Action::NumActions => 16,
            Action::KillForward => 17,
        }
    }
}

/// The sensor with number `i`, for numbers up to `NumSenses`.
pub fn sensor_from_index(i: usize) -> (r: Option<Sensor>)
    ensures
        i < 22 ==> r == Some(sensor_at(i as int)),
        i >= 22 ==> r is None,
{
    if i == 0 {
        Some(Sensor::LocX)
    } else if i == 1 {
        Some(Sensor::LocY)
    } else if i == 2 {
        Some(Sensor::BoundaryDistX)
    } else if i == 3 {
        Some(Sensor::BoundaryDist)
    } else if i == 4 {
        Some(Sensor::BoundaryDistY)
    } else if i == 5 {
        Some(Sensor::GeneticSimFwd)
    } else if i == 6 {
        Some(Sensor::LastMoveDirX)
    } else if i == 7 {
        Some(Sensor::LastMoveDirY)
    } else if i == 8 {
        Some(Sensor::LongprobePopFwd)
    } else if i == 9 {
        Some(Sensor::LongprobeBarFwd)
    } else if i == 10 {
        Some(Sensor::Population)
    } else if i == 11 {
        Some(Sensor::PopulationFwd)
    } else if i == 12 {
        Some(Sensor::PopulationLr)
    } else if i == 13 {
        Some(Sensor::Osc1)
    } else if i == 14 {
        Some(Sensor::Age)
    } else if i == 15 {
        Some(Sensor::BarrierFwd)
    } else if i == 16 {
        Some(Sensor::BarrierLr)
    } else if i == 17 {
        Some(Sensor::Random)
    } else if i == 18 {
        Some(Sensor::Signal0)
    } else if i == 19 {
        Some(Sensor::Signal0Fwd)
    } else if i == 20 {
        Some(Sensor::Signal0Lr)
    } else if i == 21 {
        Some(Sensor::NumSenses)
    } else {
        None
    }
}

/// The action with number `i`, for numbers up to `KillForward`.
pub fn action_from_index(i: usize) -> (r: Option<Action>)
    ensures
        i < 18 ==> r == Some(action_at(i as int)),
        i >= 18 ==> r is None,
{
    if i == 0 {
        Some(Action::MoveX)
    } else if i == 1 {
        Some(Action::MoveY)
    } else if i == 2 {
        Some(Action::MoveForward)
    } else if i == 3 {
        Some(Action::MoveRl)
    } else if i == 4 {
        Some(Action::MoveRandom)
    } else if i == 5 {
        Some(Action::SetOscillatorPeriod)
    } else if i == 6 {
        Some(Action::SetLongprobeDist)
    } else if i == 7 {
        Some(Action::SetResponsiveness)
    } else if i == 8 {
        Some(Action::EmitSignal0)
    } else if i == 9 {
        Some(Action::MoveEast)
    } else if i == 10 {
        Some(Action::MoveWest)
    } else if i == 11 {
        Some(Action::MoveNorth)
    } else if i == 12 {
        Some(Action::MoveSouth)
    } else if i == 13 {
        Some(Action::MoveLeft)
    } else if i == 14 {
        Some(Action::MoveRight)
    } else if i == 15 {
        Some(Action::MoveReverse)
    } else if i == 16 {
        Some(Action::NumActions)
    } else if i == 17 {
        Some(Action::KillForward)
    } else {
        None
    }
}

/// The upper-case code of a sensor.
pub open spec fn sensor_code(v: Sensor) -> Seq<char> {
    match v {
        Sensor::LocX => "LOC_X"@,
        Sensor::LocY => "LOC_Y"@,
        Sensor::BoundaryDistX => "BOUNDARY_DIST_X"@,
        Sensor::BoundaryDist => "BOUNDARY_DIST"@,
        Sensor::BoundaryDistY => "BOUNDARY_DIST_Y"@,
        Sensor::GeneticSimFwd => "GENETIC_SIM_FWD"@,
        Sensor::LastMoveDirX => "LAST_MOVE_DIR_X"@,
        Sensor::LastMoveDirY => "LAST_MOVE_DIR_Y"@,
        Sensor::LongprobePopFwd => "LONGPROBE_POP_FWD"@,
        Sensor::LongprobeBarFwd => "LONGPROBE_BAR_FWD"@,
        Sensor::Population => "POPULATION"@,
        Sensor::PopulationFwd => "POPULATION_FWD"@,
        Sensor::PopulationLr => "POPULATION_LR"@,
        Sensor::Osc1 => "OSC1"@,
        Sensor::Age => "AGE"@,
        Sensor::BarrierFwd => "BARRIER_FWD"@,
        Sensor::BarrierLr => "BARRIER_LR"@,
        Sensor::Random => "RANDOM"@,
        Sensor::Signal0 => "SIGNAL0"@,
        Sensor::Signal0Fwd => "SIGNAL0_FWD"@,
        Sensor::Signal0Lr => "SIGNAL0_LR"@,
        Sensor::NumSenses => "NUM_SENSES"@,
    }
}

/// The upper-case code of an action.
pub open spec fn action_code(v: Action) -> Seq<char> {
    match v {
        Action::MoveX => "MOVE_X"@,
        Action::MoveY => "MOVE_Y"@,
        Action::MoveForward => "MOVE_FORWARD"@,
        Action::MoveRl => "MOVE_RL"@,
        Action::MoveRandom => "MOVE_RANDOM"@,
        Action::SetOscillatorPeriod => "SET_OSCILLATOR_PERIOD"@,
        Action::SetLongprobeDist => "SET_LONGPROBE_DIST"@,
        Action::SetResponsiveness => "SET_RESPONSIVENESS"@,
        Action::EmitSignal0 => "EMIT_SIGNAL0"@,
        Action::MoveEast => "MOVE_EAST"@,
        Action::MoveWest => "MOVE_WEST"@,
        Action::MoveNorth => "MOVE_NORTH"@,
        Action::MoveSouth => "MOVE_SOUTH"@,
        Action::MoveLeft => "MOVE_LEFT"@,
        Action::MoveRight => "MOVE_RIGHT"@,
        Action::MoveReverse => "MOVE_REVERSE"@,
        Action::NumActions => "NUM_ACTIONS"@,
        Action::KillForward => "KILL_FORWARD"@,
    }
}

/// The upper-case code of a sensor, e.g. `LOC_X`.
pub fn sensor_name(sensor: Sensor) -> (r: &'static str)
    ensures
        r@ == sensor_code(sensor),
{
    match sensor {
        Sensor::LocX => "LOC_X",
        Sensor::LocY => "LOC_Y",
        Sensor::BoundaryDistX => "BOUNDARY_DIST_X",
        Sensor::BoundaryDist => "BOUNDARY_DIST",
        Sensor::BoundaryDistY => "BOUNDARY_DIST_Y",
        Sensor::GeneticSimFwd => "GENETIC_SIM_FWD",
        Sensor::LastMoveDirX => "LAST_MOVE_DIR_X",
        Sensor::LastMoveDirY => "LAST_MOVE_DIR_Y",
        Sensor::LongprobePopFwd => "LONGPROBE_POP_FWD",
        Sensor::LongprobeBarFwd => "LONGPROBE_BAR_FWD",
        Sensor::Population => "POPULATION",
        Sensor::PopulationFwd => "POPULATION_FWD",
        Sensor::PopulationLr => "POPULATION_LR",
        Sensor::Osc1 => "OSC1",
        Sensor::Age => "AGE",
        Sensor::BarrierFwd => "BARRIER_FWD",
        Sensor::BarrierLr => "BARRIER_LR",
        Sensor::Random => "RANDOM",
        Sensor::Signal0 => "SIGNAL0",
        Sensor::Signal0Fwd => "SIGNAL0_FWD",
        Sensor::Signal0Lr => "SIGNAL0_LR",
        Sensor::NumSenses => "NUM_SENSES",
    }
}

/// The upper-case code of an action, e.g. `MOVE_X`.
pub fn action_name(action: Action) -> (r: &'static str)
    ensures
        r@ == action_code(action),
{
    match action {
        Action::MoveX => "MOVE_X",
        Action::MoveY => "MOVE_Y",
        Action::MoveForward => "MOVE_FORWARD",
        Action::MoveRl => "MOVE_RL",
        Action::MoveRandom => "MOVE_RANDOM",
        Action::SetOscillatorPeriod => "SET_OSCILLATOR_PERIOD",
        Action::SetLongprobeDist => "SET_LONGPROBE_DIST",
        Action::SetResponsiveness => "SET_RESPONSIVENESS",
        Action::EmitSignal0 => "EMIT_SIGNAL0",
        Action::MoveEast => "MOVE_EAST",
        Action::MoveWest => "MOVE_WEST",
        Action::MoveNorth => "MOVE_NORTH",
        Action::MoveSouth => "MOVE_SOUTH",
        Action::MoveLeft => "MOVE_LEFT",
        Action::MoveRight => "MOVE_RIGHT",
        Action::MoveReverse => "MOVE_REVERSE",
        Action::NumActions => "NUM_ACTIONS",
        Action::KillForward => "KILL_FORWARD",
    }
}

/// Every sensor and every action has its own position in the declaration,
/// and the active ones are exactly those before the end markers.
pub proof fn lemma_index_roundtrip(s: Sensor, a: Action)
    ensures
        sensor_at(sensor_index(s)) == s,
        action_at(action_index(a)) == a,
        (sensor_index(s) < NUM_SENSES) == (s != Sensor::NumSenses),
        (action_index(a) < NUM_ACTIONS) == (a != Action::NumActions && a != Action::KillForward),
{
}

} // verus!
