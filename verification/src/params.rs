//! Simulator parameters.
//!
//! Probabilities are held as thresholds on 32-bit draws: a draw `u`
//! succeeds for the threshold `t` when `u < t`, which is exactly when
//! `u / 2^32`, computed in single precision, falls below the probability.
//! Radii are held as fractions `num / den`.
use vstd::prelude::*;

use crate::text::{
    chars_equal, chars_of, find_char, first_index, lemma_split_on_nonempty, lowercase,
    lowercase_chars, parse_u32, parse_u32_chars, slice_chars, split_chars, split_on, string_of, trim,
    trim_chars, is_whitespace, char_is_whitespace, without_whitespace, remove_whitespace,
};

verus! {

/// What the simulator loop should do next.
#[derive(Debug, Clone, Copy, PartialEq, Eq, Structural)]
pub enum RunMode {
    Stop,
    Run,
    Pause,
    Abort,
}

/// All parameters of a run.
#[derive(Debug, Clone)]
pub struct Params {
    pub population: u32,
    pub steps_per_generation: u32,
    pub max_generations: u32,
    pub num_threads: u32,
    pub signal_layers: u32,
    pub genome_max_length: u32,
    pub max_number_neurons: u32,
    /// Draw threshold of the per-gene point mutation probability.
    pub point_mutation_threshold: u64,
    /// Draw threshold of the probability of an insertion or deletion.
    pub gene_insertion_deletion_threshold: u64,
    /// Draw threshold of the share of deletions among insertions and deletions.
    pub deletion_threshold: u64,
    pub kill_enable: bool,
    pub sexual_reproduction: bool,
    pub choose_parents_by_fitness: bool,
    /// Keep duplicate connections of a brain apart (gene dosage) rather
    /// than merging them into one with the summed weight.
    pub allow_duplicate_connections: bool,
    pub population_sensor_radius_num: u64,
    pub population_sensor_radius_den: u64,
    pub signal_sensor_radius_num: u64,
    pub signal_sensor_radius_den: u64,
    pub responsiveness_curve_k_factor: u32,
    pub long_probe_distance: u32,
    pub short_probe_barrier_distance: u32,
    pub save_video: bool,
    pub video_stride: u32,
    pub video_save_first_frames: u32,
    pub video_framerate: u32,
    pub display_scale: u32,
    pub agent_size: u32,
    pub display_enabled: bool,
    pub display_challenge_area: bool,
    pub display_challenge_area_r: u8,
    pub display_challenge_area_g: u8,
    pub display_challenge_area_b: u8,
    pub genome_analysis_stride: u32,
    pub display_sample_genomes: u32,
    pub genome_comparison_method: u32,
    pub update_graph_log: bool,
    pub update_graph_log_stride: u32,
    pub challenge: u32,
    pub barrier_type: u32,
    pub deterministic: bool,
    pub rng_seed: u32,
    pub size_x: u16,
    pub size_y: u16,
    pub genome_initial_length_min: u32,
    pub genome_initial_length_max: u32,
    pub log_dir: String,
    pub image_dir: String,
    pub graph_log_update_command: String,
    pub parameter_change_generation_number: u32,
}

/// Draw threshold of the probability 0.001.
pub const THRESHOLD_0_001: u64 = 4294968;

/// Draw threshold of the probability 0.5.
pub const THRESHOLD_0_5: u64 = 2147483584;

impl Params {
    /// The values of a run that reads no configuration.
    pub open spec fn is_default(self) -> bool {
        &&& self.size_x == 128 && self.size_y == 128
        &&& self.challenge == 6
        &&& self.genome_initial_length_min == 24 && self.genome_initial_length_max == 24
        &&& self.genome_max_length == 300
        &&& self.population == 3000
        &&& self.steps_per_generation == 300
        &&& self.max_generations == 200000
        &&& self.barrier_type == 0
        &&& self.num_threads == 4
        &&& self.signal_layers == 1
        &&& self.max_number_neurons == 5
        &&& self.point_mutation_threshold == THRESHOLD_0_001
        &&& self.gene_insertion_deletion_threshold == 0
        &&& self.deletion_threshold == THRESHOLD_0_5
        &&& !self.kill_enable
        &&& self.sexual_reproduction
        &&& self.choose_parents_by_fitness
        &&& !self.allow_duplicate_connections
        &&& self.population_sensor_radius_num == 5 && self.population_sensor_radius_den == 2
        &&& self.signal_sensor_radius_num == 2 && self.signal_sensor_radius_den == 1
        &&& self.responsiveness_curve_k_factor == 2
        &&& self.long_probe_distance == 16
        &&& self.short_probe_barrier_distance == 4
        &&& self.save_video
        &&& self.video_stride == 25
        &&& self.video_save_first_frames == 2
        &&& self.video_framerate == 25
        &&& self.display_scale == 8
        &&& self.agent_size == 4
        &&& self.display_enabled
        &&& !self.display_challenge_area
        &&& self.display_challenge_area_r == 255
        &&& self.display_challenge_area_g == 255
        &&& self.display_challenge_area_b == 0
        &&& self.genome_analysis_stride == 25
        &&& self.display_sample_genomes == 5
        &&& self.genome_comparison_method == 1
        &&& self.update_graph_log
        &&& self.update_graph_log_stride == 25
        &&& !self.deterministic
        &&& self.rng_seed == 12345678
        &&& self.parameter_change_generation_number == 0
        &&& self.log_dir@ == "./logs/"@
        &&& self.image_dir@ == "./images/"@
        &&& self.graph_log_update_command@ == "/usr/bin/gnuplot --persist ./tools/graphlog.gp"@
    }
}

impl Default for Params {
    fn default() -> (p: Params)
        ensures
            p.is_default(),
    {
        Params {
            size_x: 128,
            size_y: 128,
            challenge: 6,
            genome_initial_length_min: 24,
            genome_initial_length_max: 24,
            genome_max_length: 300,
            log_dir: "./logs/".to_owned(),
            image_dir: "./images/".to_owned(),
            population: 3000,
            steps_per_generation: 300,
            max_generations: 200000,
            barrier_type: 0,
            num_threads: 4,
            signal_layers: 1,
            max_number_neurons: 5,
            point_mutation_threshold: THRESHOLD_0_001,
            gene_insertion_deletion_threshold: 0,
            deletion_threshold: THRESHOLD_0_5,
            kill_enable: false,
            sexual_reproduction: true,
            choose_parents_by_fitness: true,
            allow_duplicate_connections: false,
            population_sensor_radius_num: 5,
            population_sensor_radius_den: 2,
            signal_sensor_radius_num: 2,
            signal_sensor_radius_den: 1,
            responsiveness_curve_k_factor: 2,
            long_probe_distance: 16,
            short_probe_barrier_distance: 4,
            save_video: true,
            video_stride: 25,
            video_save_first_frames: 2,
            video_framerate: 25,
            display_scale: 8,
            agent_size: 4,
            display_enabled: true,
            display_challenge_area: false,
            display_challenge_area_r: 255,
            display_challenge_area_g: 255,
            display_challenge_area_b: 0,
            genome_analysis_stride: 25,
            display_sample_genomes: 5,
            genome_comparison_method: 1,
            update_graph_log: true,
            update_graph_log_stride: 25,
            deterministic: false,
            rng_seed: 12345678,
            graph_log_update_command: "/usr/bin/gnuplot --persist ./tools/graphlog.gp".to_owned(),
            parameter_change_generation_number: 0,
        }
    }
}


/// What is known of a parameter value read as a floating-point number.
pub struct FloatValue {
    /// The value reads as a number.
    pub parsed: bool,
    /// It is at least 0.
    pub nonnegative: bool,
    /// It is above 0.
    pub positive: bool,
    /// It is at most 1.
    pub at_most_one: bool,
    /// The draw threshold of the value as a probability.
    pub threshold: u64,
    /// The value as a radius, `radius_num / radius_den`.
    pub radius_num: u64,
    pub radius_den: u64,
}

/// The parameters that live in single precision outside the library.
#[derive(Debug, Clone, Copy, PartialEq, Eq, Structural)]
pub enum FloatParameter {
    PopulationSensorRadius,
    SignalSensorRadius,
    Responsiveness,
    ValenceSaturationMag,
    DisplayChallengeAreaOpacity,
}

/// The outcome of reading one parameter.
#[derive(Debug, Clone, Copy, PartialEq, Eq, Structural)]
pub enum IngestResult {
    /// The value was taken.
    Stored,
    /// The value was accepted for a single-precision parameter, which the
    /// caller keeps.
    KeepFloat(FloatParameter),
    /// Unknown name, or a value the parameter does not accept.
    Invalid,
    /// A display color component above 255.
    InvalidColorValues,
    /// A display color not of the form `R,G,B`.
    InvalidColorFormat,
}

/// `a` agrees with `b` on every field but the three strings.
pub open spec fn same_numbers(a: Params, b: Params) -> bool {
    (Params {
        log_dir: b.log_dir,
        image_dir: b.image_dir,
        graph_log_update_command: b.graph_log_update_command,
        ..a
    }) == b
}

/// The display color a value `R,G,B` sets, or the complaint about it.
pub open spec fn color_outcome(p: Params, val: Seq<char>) -> (Params, IngestResult) {
    let parts = split_on(val, ',');
    if parts.len() == 3 {
        let r = parse_u32(trim(parts[0]));
        let g = parse_u32(trim(parts[1]));
        let b = parse_u32(trim(parts[2]));
        if r is Some && g is Some && b is Some {
            let (rv, gv, bv) = (r->0, g->0, b->0);
            if rv <= 255 && gv <= 255 && bv <= 255 {
                (
                    Params {
                        display_challenge_area_r: rv as u8,
                        display_challenge_area_g: gv as u8,
                        display_challenge_area_b: bv as u8,
                        ..p
                    },
                    IngestResult::Stored,
                )
            } else {
                (p, IngestResult::InvalidColorValues)
            }
        } else {
            (p, IngestResult::InvalidColorFormat)
        }
    } else {
        (p, IngestResult::InvalidColorFormat)
    }
}

/// What `facts_hold` says of a value, computed.
pub open spec fn value_facts(val: Seq<char>, f: FloatValue) -> ValueFacts {
    ValueFacts {
        is_uint: parse_u32(val) is Some,
        uv: match parse_u32(val) {
            Some(v) => v,
            None => 0,
        },
        is_bool: val == "0"@ || val == "1"@ || val == "true"@ || val == "false"@,
        bv: val == "true"@ || val == "1"@,
        prob: f.parsed && f.nonnegative && f.at_most_one,
        is_video_stride: lowercase(val) == "videostride"@,
    }
}

/// The parameters after reading `name = val`, and the outcome. Each name
/// takes values of its kind: unsigned integers (some only positive or in
/// a range), booleans (`0`, `1`, `true`, `false`), probabilities in
/// 0..=1, positive radii; the two strides also take `videostride` (any
/// case) for the video stride. The two directory names take any value
/// (the strings are not part of this result); anything else is invalid.
pub open spec fn ingested(p: Params, name: Seq<char>, val: Seq<char>, f: FloatValue) -> (Params, IngestResult) {
    ingested_names(p, name, val, f, value_facts(val, f))
}

/// `ingested`, name by name, in the order the names are tried.
#[verifier::opaque]
pub open spec fn ingested_names(p: Params, name: Seq<char>, val: Seq<char>, f: FloatValue, facts: ValueFacts) -> (Params, IngestResult) {
    let is_uint = facts.is_uint;
    let uv = facts.uv;
    let is_bool = facts.is_bool;
    let bv = facts.bv;
    let prob = facts.prob;
    let is_video_stride = facts.is_video_stride;
    let ok = IngestResult::Stored;
    if name == "sizex"@ && is_uint && 2 <= uv <= 65535 {
        (Params { size_x: uv as u16, ..p }, ok)
    } else if name == "sizey"@ && is_uint && 2 <= uv <= 65535 {
        (Params { size_y: uv as u16, ..p }, ok)
    } else if name == "challenge"@ && is_uint {
        (Params { challenge: uv, ..p }, ok)
    } else if name == "genomeinitiallengthmin"@ && is_uint && uv > 0 {
        (Params { genome_initial_length_min: uv, ..p }, ok)
    } else if name == "genomeinitiallengthmax"@ && is_uint && uv > 0 {
        (Params { genome_initial_length_max: uv, ..p }, ok)
    } else if name == "logdir"@ {
        (p, ok)
    } else if name == "imagedir"@ {
        (p, ok)
    } else if name == "population"@ && is_uint && uv > 0 {
        (Params { population: uv, ..p }, ok)
    } else {
        ingested_names_2(p, name, val, f, facts)
    }
}

/// `ingested` for the names after those of `ingested_names`.
#[verifier::opaque]
pub open spec fn ingested_names_2(p: Params, name: Seq<char>, val: Seq<char>, f: FloatValue, facts: ValueFacts) -> (Params, IngestResult) {
    let is_uint = facts.is_uint;
    let uv = facts.uv;
    let is_bool = facts.is_bool;
    let bv = facts.bv;
    let prob = facts.prob;
    let is_video_stride = facts.is_video_stride;
    let ok = IngestResult::Stored;
    if name == "stepspergeneration"@ && is_uint && uv > 0 {
        (Params { steps_per_generation: uv, ..p }, ok)
    } else if name == "maxgenerations"@ && is_uint && uv > 0 {
        (Params { max_generations: uv, ..p }, ok)
    } else if name == "barriertype"@ && is_uint {
        (Params { barrier_type: uv, ..p }, ok)
    } else if name == "numthreads"@ && is_uint && uv > 0 {
        (Params { num_threads: uv, ..p }, ok)
    } else if name == "signallayers"@ && is_uint {
        (Params { signal_layers: uv, ..p }, ok)
    } else if name == "genomemaxlength"@ && is_uint && uv > 0 {
        (Params { genome_max_length: uv, ..p }, ok)
    } else if name == "maxnumberneurons"@ && is_uint && uv > 0 {
        (Params { max_number_neurons: uv, ..p }, ok)
    } else if name == "pointmutationrate"@ && prob {
        (Params { point_mutation_threshold: f.threshold, ..p }, ok)
    } else {
        ingested_names_3(p, name, val, f, facts)
    }
}

/// `ingested` for the names after those of `ingested_names_2`.
#[verifier::opaque]
pub open spec fn ingested_names_3(p: Params, name: Seq<char>, val: Seq<char>, f: FloatValue, facts: ValueFacts) -> (Params, IngestResult) {
    let is_uint = facts.is_uint;
    let uv = facts.uv;
    let is_bool = facts.is_bool;
    let bv = facts.bv;
    let prob = facts.prob;
    let is_video_stride = facts.is_video_stride;
    let ok = IngestResult::Stored;
    if name == "geneinsertiondeletionrate"@ && prob {
        (Params { gene_insertion_deletion_threshold: f.threshold, ..p }, ok)
    } else if name == "deletionratio"@ && prob {
        (Params { deletion_threshold: f.threshold, ..p }, ok)
    } else if name == "killenable"@ && is_bool {
        (Params { kill_enable: bv, ..p }, ok)
    } else if name == "sexualreproduction"@ && is_bool {
        (Params { sexual_reproduction: bv, ..p }, ok)
    } else if name == "chooseparentsbyfitness"@ && is_bool {
        (Params { choose_parents_by_fitness: bv, ..p }, ok)
    } else if name == "populationsensorradius"@ && f.parsed && f.positive {
        (Params { population_sensor_radius_num: f.radius_num, population_sensor_radius_den: f.radius_den, ..p }, IngestResult::KeepFloat(FloatParameter::PopulationSensorRadius))
    } else if name == "signalsensorradius"@ && f.parsed && f.positive {
        (Params { signal_sensor_radius_num: f.radius_num, signal_sensor_radius_den: f.radius_den, ..p }, IngestResult::KeepFloat(FloatParameter::SignalSensorRadius))
    } else if name == "responsiveness"@ && f.parsed && f.nonnegative {
        (p, IngestResult::KeepFloat(FloatParameter::Responsiveness))
    } else {
        ingested_names_4(p, name, val, f, facts)
    }
}

/// `ingested` for the names after those of `ingested_names_3`.
#[verifier::opaque]
pub open spec fn ingested_names_4(p: Params, name: Seq<char>, val: Seq<char>, f: FloatValue, facts: ValueFacts) -> (Params, IngestResult) {
    let is_uint = facts.is_uint;
    let uv = facts.uv;
    let is_bool = facts.is_bool;
    let bv = facts.bv;
    let prob = facts.prob;
    let is_video_stride = facts.is_video_stride;
    let ok = IngestResult::Stored;
    if name == "responsivenesscurvekfactor"@ && is_uint && 1 <= uv <= 20 {
        (Params { responsiveness_curve_k_factor: uv, ..p }, ok)
    } else if name == "longprobedistance"@ && is_uint && uv > 0 {
        (Params { long_probe_distance: uv, ..p }, ok)
    } else if name == "shortprobebarrierdistance"@ && is_uint && uv > 0 {
        (Params { short_probe_barrier_distance: uv, ..p }, ok)
    } else if name == "valencesaturationmag"@ && f.parsed && f.nonnegative {
        (p, IngestResult::KeepFloat(FloatParameter::ValenceSaturationMag))
    } else if name == "savevideo"@ && is_bool {
        (Params { save_video: bv, ..p }, ok)
    } else if name == "videostride"@ && is_uint && uv > 0 {
        (Params { video_stride: uv, ..p }, ok)
    } else if name == "videosavefirstframes"@ && is_uint {
        (Params { video_save_first_frames: uv, ..p }, ok)
    } else if name == "videoframerate"@ && is_uint && uv > 0 {
        (Params { video_framerate: uv, ..p }, ok)
    } else {
        ingested_names_5(p, name, val, f, facts)
    }
}

/// `ingested` for the names after those of `ingested_names_4`.
#[verifier::opaque]
pub open spec fn ingested_names_5(p: Params, name: Seq<char>, val: Seq<char>, f: FloatValue, facts: ValueFacts) -> (Params, IngestResult) {
    let is_uint = facts.is_uint;
    let uv = facts.uv;
    let is_bool = facts.is_bool;
    let bv = facts.bv;
    let prob = facts.prob;
    let is_video_stride = facts.is_video_stride;
    let ok = IngestResult::Stored;
    if name == "displayscale"@ && is_uint && uv > 0 {
        (Params { display_scale: uv, ..p }, ok)
    } else if name == "displayenabled"@ && is_bool {
        (Params { display_enabled: bv, ..p }, ok)
    } else if name == "displaychallengearea"@ && is_bool {
        (Params { display_challenge_area: bv, ..p }, ok)
    } else if name == "displaychallengeareaopacity"@ && prob {
        (p, IngestResult::KeepFloat(FloatParameter::DisplayChallengeAreaOpacity))
    } else if name == "displaychallengeareacolor"@ {
        color_outcome(p, val)
    } else if name == "agentsize"@ && is_uint && uv > 0 {
        (Params { agent_size: uv, ..p }, ok)
    } else if name == "genomeanalysisstride"@ && is_video_stride {
        (Params { genome_analysis_stride: p.video_stride, ..p }, ok)
    } else if name == "genomeanalysisstride"@ && is_uint && uv > 0 {
        (Params { genome_analysis_stride: uv, ..p }, ok)
    } else {
        ingested_names_6(p, name, val, f, facts)
    }
}

/// `ingested` for the names after those of `ingested_names_5`.
#[verifier::opaque]
pub open spec fn ingested_names_6(p: Params, name: Seq<char>, val: Seq<char>, f: FloatValue, facts: ValueFacts) -> (Params, IngestResult) {
    let is_uint = facts.is_uint;
    let uv = facts.uv;
    let is_bool = facts.is_bool;
    let bv = facts.bv;
    let prob = facts.prob;
    let is_video_stride = facts.is_video_stride;
    let ok = IngestResult::Stored;
    if name == "displaysamplegenomes"@ && is_uint {
        (Params { display_sample_genomes: uv, ..p }, ok)
    } else if name == "genomecomparisonmethod"@ && is_uint {
        (Params { genome_comparison_method: uv, ..p }, ok)
    } else if name == "updategraphlog"@ && is_bool {
        (Params { update_graph_log: bv, ..p }, ok)
    } else if name == "updategraphlogstride"@ && is_video_stride {
        (Params { update_graph_log_stride: p.video_stride, ..p }, ok)
    } else if name == "updategraphlogstride"@ && is_uint && uv > 0 {
        (Params { update_graph_log_stride: uv, ..p }, ok)
    } else if name == "deterministic"@ && is_bool {
        (Params { deterministic: bv, ..p }, ok)
    } else if name == "rngseed"@ && is_uint {
        (Params { rng_seed: uv, ..p }, ok)
    } else {
        (p, IngestResult::Invalid)
    }
}

/// What is known of a value: whether it reads as an unsigned integer
/// (and which), as a boolean (and which), as a probability, and whether it
/// names the video stride.
pub struct ValueFacts {
    pub is_uint: bool,
    pub uv: u32,
    pub is_bool: bool,
    pub bv: bool,
    pub prob: bool,
    pub is_video_stride: bool,
}

/// `facts` hold of `val` (read as a number as `f` says).
pub open spec fn facts_hold(val: Seq<char>, f: FloatValue, facts: ValueFacts) -> bool {
    &&& facts.is_uint == parse_u32(val) is Some
    &&& facts.uv == (match parse_u32(val) {
        Some(v) => v,
        None => 0,
    })
    &&& facts.is_bool == (val == "0"@ || val == "1"@ || val == "true"@ || val == "false"@)
    &&& facts.bv == (val == "true"@ || val == "1"@)
    &&& facts.prob == (f.parsed && f.nonnegative && f.at_most_one)
    &&& facts.is_video_stride == (lowercase(val) == "videostride"@)
}

/// What one line of a parameter file holds.
pub enum ConfigLine {
    /// Nothing to read: blank, a comment, no `=`, or not active yet.
    Skip,
    /// A name whose `@` generation is not a number.
    InvalidGenerationSpecifier(String),
    /// A parameter to read, by its lower-case name.
    Param { name: String, value: String },
}

/// The part of `s` before its first `#`.
pub open spec fn before_hash(s: Seq<char>) -> Seq<char> {
    match first_index(s, '#') {
        Some(i) => s.take(i),
        None => s,
    }
}

/// A parameter line with white space removed, split into the name (up
/// to the first `=`) and the value (after it, up to a `#`, trimmed); none
/// for a blank line, a comment, or a line without `=`.
#[verifier::opaque]
pub open spec fn config_split(line: Seq<char>) -> Option<(Seq<char>, Seq<char>)> {
    let l = without_whitespace(line);
    if l.len() == 0 || l[0] == '#' {
        None
    } else {
        match first_index(l, '=') {
            None => None,
            Some(d) => Some((l.take(d), trim(before_hash(l.skip(d + 1))))),
        }
    }
}

/// The kind of a parameter line: 0 nothing to read (see `config_split`,
/// or active only from a later generation than `generation`), 1 a bad `@`
/// generation, 2 a parameter.
pub open spec fn config_kind(line: Seq<char>, generation: u32) -> int {
    match config_split(line) {
        None => 0,
        Some(nv) => match first_index(nv.0, '@') {
            None => 2,
            Some(g) => match parse_u32(nv.0.skip(g + 1)) {
                None => 1,
                Some(a) => if a > generation {
                    0
                } else {
                    2
                },
            },
        },
    }
}

/// The name part of a line, with its `@` generation if any.
pub open spec fn config_raw_name(line: Seq<char>) -> Seq<char> {
    match config_split(line) {
        Some(nv) => nv.0,
        None => Seq::empty(),
    }
}

/// The lower-case parameter name of a line, without its `@` generation.
pub open spec fn config_name(line: Seq<char>) -> Seq<char> {
    let name = config_raw_name(line);
    match first_index(name, '@') {
        Some(g) => lowercase(name.take(g)),
        None => lowercase(name),
    }
}

/// The value of a line.
pub open spec fn config_value(line: Seq<char>) -> Seq<char> {
    match config_split(line) {
        Some(nv) => nv.1,
        None => Seq::empty(),
    }
}

/// The line's parameter becomes active at exactly `generation`.
pub open spec fn config_marks_change(line: Seq<char>, generation: u32) -> bool {
    let name = config_raw_name(line);
    config_kind(line, generation) == 2 && match first_index(name, '@') {
        Some(g) => parse_u32(name.skip(g + 1)) == Some(generation),
        None => false,
    }
}

/// Splits a parameter line (see `config_split`).
fn split_config_line(line: &str) -> (r: Option<(Vec<char>, Vec<char>)>)
    ensures
        match r {
            Some(nv) => config_split(line@) == Some((nv.0@, nv.1@)),
            None => config_split(line@) is None,
        },
{
    proof {
        reveal(config_split);
    }
    let raw = chars_of(line);
    let l = remove_whitespace(&raw);
    if l.len() == 0 || l[0] == '#' {
        return None;
    }
    let d = match find_char(&l, '=') {
        Some(d) => d,
        None => {
            return None;
        },
    };
    let name = slice_chars(&l, 0, d);
    let after = slice_chars(&l, d + 1, l.len());
    assert(name@ == l@.take(d as int));
    assert(after@ == l@.skip(d + 1));
    let before = match find_char(&after, '#') {
        Some(h) => slice_chars(&after, 0, h),
        None => after,
    };
    assert(before@ == before_hash(l@.skip(d + 1)));
    let value = trim_chars(&before);
    Some((name, value))
}

/// The parameters of a run and the file they are read from.
pub struct ParamManager {
    priv_params: Params,
    config_filename: String,
}

impl ParamManager {
    /// The current parameters.
    pub closed spec fn params(&self) -> Params {
        self.priv_params
    }

    /// The name of the parameter file.
    pub closed spec fn config_filename_view(&self) -> Seq<char> {
        self.config_filename@
    }

    /// The default parameters, with no parameter file.
    pub fn new() -> (pm: ParamManager)
        ensures
            pm.params().is_default(),
            pm.config_filename_view().len() == 0,
    {
        let mut pm = ParamManager { priv_params: Params::default(), config_filename: String::new() };
        pm.set_defaults();
        pm
    }

    /// The current parameters.
    pub fn get_param_ref(&self) -> (p: &Params)
        ensures
            *p == self.params(),
    {
        &self.priv_params
    }

    /// The defaults are already in place when the manager is made; this
    /// changes nothing.
    pub fn set_defaults(&mut self)
        ensures
            final(self).params() == old(self).params(),
            final(self).config_filename_view() == old(self).config_filename_view(),
    {
    }

    /// Names the parameter file.
    pub fn register_config_file(&mut self, filename: &str)
        ensures
            final(self).params() == old(self).params(),
            final(self).config_filename_view() == filename@,
    {
        self.config_filename = filename.to_owned();
    }

    /// The name of the parameter file.
    pub fn config_filename(&self) -> (r: &String)
        ensures
            r@ == self.config_filename_view(),
    {
        &self.config_filename
    }

    /// Whether to warn that a deterministic run wants one thread.
    pub fn check_parameters(&self) -> (warn: bool)
        ensures
            warn == (self.params().deterministic && self.params().num_threads != 1),
    {
        self.priv_params.deterministic && self.priv_params.num_threads != 1
    }

    /// Reads one line of the parameter file for generation
    /// `generation_number` (see `config_kind`): a parameter that becomes
    /// active at exactly this generation marks it as the generation of the
    /// last parameter change. The caller reads a returned parameter with
    /// `ingest_parameter`.
    pub fn process_config_line(&mut self, line: &str, generation_number: u32) -> (r: ConfigLine)
        ensures
            final(self).params() == if config_marks_change(line@, generation_number) {
                Params { parameter_change_generation_number: generation_number, ..old(self).params() }
            } else {
                old(self).params()
            },
            final(self).config_filename_view() == old(self).config_filename_view(),
            match r {
                ConfigLine::Skip => config_kind(line@, generation_number) == 0,
                ConfigLine::InvalidGenerationSpecifier(n) => config_kind(line@, generation_number) == 1
                    && n@ == config_raw_name(line@),
                ConfigLine::Param { name, value } => config_kind(line@, generation_number) == 2
                    && name@ == config_name(line@) && value@ == config_value(line@),
            },
    {
        let (mut name, value) = match split_config_line(line) {
            Some(nv) => nv,
            None => {
                return ConfigLine::Skip;
            },
        };
        let ghost raw_name = name@;
        match find_char(&name, '@') {
            Some(g) => {
                let spec_chars = slice_chars(&name, g + 1, name.len());
                assert(spec_chars@ == name@.skip(g + 1));
                match parse_u32_chars(&spec_chars) {
                    Some(active_from_gen) => {
                        if active_from_gen > generation_number {
                            return ConfigLine::Skip;
                        } else if active_from_gen == generation_number {
                            self.priv_params.parameter_change_generation_number = generation_number;
                        }
                        name = slice_chars(&name, 0, g);
                        assert(name@ == raw_name.take(g as int));
                    },
                    None => {
                        return ConfigLine::InvalidGenerationSpecifier(string_of(&name));
                    },
                }
            },
            None => {},
        }
        let lname = lowercase_chars(&name);
        ConfigLine::Param { name: string_of(&lname), value: string_of(&value) }
    }

    /// Reads the display color `R,G,B` (see `color_outcome`).
    fn ingest_color(&mut self, v: &Vec<char>) -> (r: IngestResult)
        ensures
            same_numbers(final(self).params(), color_outcome(old(self).params(), v@).0),
            final(self).params().log_dir == old(self).params().log_dir,
            final(self).params().image_dir == old(self).params().image_dir,
            final(self).params().graph_log_update_command == old(self).params().graph_log_update_command,
            r == color_outcome(old(self).params(), v@).1,
            final(self).config_filename_view() == old(self).config_filename_view(),
    {
        let parts = split_chars(v, ',');
        if parts.len() == 3 {
            let t0 = trim_chars(&parts[0]);
            let t1 = trim_chars(&parts[1]);
            let t2 = trim_chars(&parts[2]);
            let r = parse_u32_chars(&t0);
            let g = parse_u32_chars(&t1);
            let b = parse_u32_chars(&t2);
            match (r, g, b) {
                (Some(rv), Some(gv), Some(bv)) => {
                    if rv <= 255 && gv <= 255 && bv <= 255 {
                        self.priv_params.display_challenge_area_r = rv as u8;
                        self.priv_params.display_challenge_area_g = gv as u8;
                        self.priv_params.display_challenge_area_b = bv as u8;
                        IngestResult::Stored
                    } else {
                        IngestResult::InvalidColorValues
                    }
                },
                _ => IngestResult::InvalidColorFormat,
            }
        } else {
            IngestResult::InvalidColorFormat
        }
    }

    /// Reads `name = val` (see `ingested`); `f` describes `val` read as a
    /// floating-point number. The directories take `val` as it is.
    pub fn ingest_parameter(&mut self, name: &str, val: &str, f: &FloatValue) -> (r: IngestResult)
        ensures
            same_numbers(final(self).params(), ingested(old(self).params(), name@, val@, *f).0),
            r == ingested(old(self).params(), name@, val@, *f).1,
            final(self).params().log_dir@ == if name@ == "logdir"@ {
                val@
            } else {
                old(self).params().log_dir@
            },
            final(self).params().image_dir@ == if name@ == "imagedir"@ {
                val@
            } else {
                old(self).params().image_dir@
            },
            final(self).params().graph_log_update_command == old(self).params().graph_log_update_command,
            final(self).config_filename_view() == old(self).config_filename_view(),
    {
        let nm = chars_of(name);
        let v = chars_of(val);
        let u = parse_u32_chars(&v);
        let is_uint = u.is_some();
        let uv: u32 = match u {
            Some(x) => x,
            None => 0,
        };
        let is_bool = chars_equal(&v, "0") || chars_equal(&v, "1") || chars_equal(&v, "true")
            || chars_equal(&v, "false");
        let bv = chars_equal(&v, "true") || chars_equal(&v, "1");
        let prob = f.parsed && f.nonnegative && f.at_most_one;
        let lv = lowercase_chars(&v);
        let is_video_stride = chars_equal(&lv, "videostride");
        let facts = ValueFacts { is_uint, uv, is_bool, bv, prob, is_video_stride };
        proof {
            reveal_strlit("logdir");
            reveal_strlit("imagedir");
        }
        let is_log = chars_equal(&nm, "logdir");
        let is_image = chars_equal(&nm, "imagedir");
        assert(facts == value_facts(val@, *f));
        let r = self.ingest_names(&nm, &v, f, &facts);
        let ghost mid = self.params();
        assert((mid, r) == ingested(old(self).params(), name@, val@, *f));
        if is_log {
            self.priv_params.log_dir = val.to_owned();
            proof {
                reveal_strlit("logdir");
                reveal_strlit("imagedir");
                assert("logdir"@.len() == 6);
                assert("imagedir"@.len() == 8);
            }
        } else if is_image {
            self.priv_params.image_dir = val.to_owned();
        }
        assert(same_numbers(self.params(), mid));
        r
    }


    /// Reads the names of `ingested_names`.
    #[verifier::rlimit(50)]
    fn ingest_names(&mut self, nm: &Vec<char>, v: &Vec<char>, f: &FloatValue, facts: &ValueFacts) -> (r: IngestResult)
        ensures
            (final(self).params(), r) == ingested_names(old(self).params(), nm@, v@, *f, *facts),
            final(self).params().log_dir == old(self).params().log_dir,
            final(self).params().image_dir == old(self).params().image_dir,
            final(self).params().graph_log_update_command == old(self).params().graph_log_update_command,
            final(self).config_filename_view() == old(self).config_filename_view(),
    {
        proof {
            reveal(ingested_names);
        }
        let is_uint = facts.is_uint;
        let uv = facts.uv;
        let is_bool = facts.is_bool;
        let bv = facts.bv;
        let prob = facts.prob;
        let is_video_stride = facts.is_video_stride;
        let ok = IngestResult::Stored;
        if chars_equal(nm, "sizex") && is_uint && 2 <= uv && uv <= 65535 {
            self.priv_params.size_x = uv as u16;
            ok
        } else if chars_equal(nm, "sizey") && is_uint && 2 <= uv && uv <= 65535 {
            self.priv_params.size_y = uv as u16;
            ok
        } else if chars_equal(nm, "challenge") && is_uint {
            self.priv_params.challenge = uv;
            ok
        } else if chars_equal(nm, "genomeinitiallengthmin") && is_uint && uv > 0 {
            self.priv_params.genome_initial_length_min = uv;
            ok
        } else if chars_equal(nm, "genomeinitiallengthmax") && is_uint && uv > 0 {
            self.priv_params.genome_initial_length_max = uv;
            ok
        } else if chars_equal(nm, "logdir") {
            ok
        } else if chars_equal(nm, "imagedir") {
            ok
        } else if chars_equal(nm, "population") && is_uint && uv > 0 {
            self.priv_params.population = uv;
            ok
        } else {
            self.ingest_names_2(nm, v, f, facts)
        }
    }


    /// Reads the names of `ingested_names_2`.
    #[verifier::rlimit(50)]
    fn ingest_names_2(&mut self, nm: &Vec<char>, v: &Vec<char>, f: &FloatValue, facts: &ValueFacts) -> (r: IngestResult)
        ensures
            (final(self).params(), r) == ingested_names_2(old(self).params(), nm@, v@, *f, *facts),
            final(self).params().log_dir == old(self).params().log_dir,
            final(self).params().image_dir == old(self).params().image_dir,
            final(self).params().graph_log_update_command == old(self).params().graph_log_update_command,
            final(self).config_filename_view() == old(self).config_filename_view(),
    {
        proof {
            reveal(ingested_names_2);
        }
        let is_uint = facts.is_uint;
        let uv = facts.uv;
        let is_bool = facts.is_bool;
        let bv = facts.bv;
        let prob = facts.prob;
        let is_video_stride = facts.is_video_stride;
        let ok = IngestResult::Stored;
        if chars_equal(nm, "stepspergeneration") && is_uint && uv > 0 {
            self.priv_params.steps_per_generation = uv;
            ok
        } else if chars_equal(nm, "maxgenerations") && is_uint && uv > 0 {
            self.priv_params.max_generations = uv;
            ok
        } else if chars_equal(nm, "barriertype") && is_uint {
            self.priv_params.barrier_type = uv;
            ok
        } else if chars_equal(nm, "numthreads") && is_uint && uv > 0 {
            self.priv_params.num_threads = uv;
            ok
        } else if chars_equal(nm, "signallayers") && is_uint {
            self.priv_params.signal_layers = uv;
            ok
        } else if chars_equal(nm, "genomemaxlength") && is_uint && uv > 0 {
            self.priv_params.genome_max_length = uv;
            ok
        } else if chars_equal(nm, "maxnumberneurons") && is_uint && uv > 0 {
            self.priv_params.max_number_neurons = uv;
            ok
        } else if chars_equal(nm, "pointmutationrate") && prob {
            self.priv_params.point_mutation_threshold = f.threshold;
            ok
        } else {
            self.ingest_names_3(nm, v, f, facts)
        }
    }


    /// Reads the names of `ingested_names_3`.
    #[verifier::rlimit(50)]
    fn ingest_names_3(&mut self, nm: &Vec<char>, v: &Vec<char>, f: &FloatValue, facts: &ValueFacts) -> (r: IngestResult)
        ensures
            (final(self).params(), r) == ingested_names_3(old(self).params(), nm@, v@, *f, *facts),
            final(self).params().log_dir == old(self).params().log_dir,
            final(self).params().image_dir == old(self).params().image_dir,
            final(self).params().graph_log_update_command == old(self).params().graph_log_update_command,
            final(self).config_filename_view() == old(self).config_filename_view(),
    {
        proof {
            reveal(ingested_names_3);
        }
        let is_uint = facts.is_uint;
        let uv = facts.uv;
        let is_bool = facts.is_bool;
        let bv = facts.bv;
        let prob = facts.prob;
        let is_video_stride = facts.is_video_stride;
        let ok = IngestResult::Stored;
        if chars_equal(nm, "geneinsertiondeletionrate") && prob {
            self.priv_params.gene_insertion_deletion_threshold = f.threshold;
            ok
        } else if chars_equal(nm, "deletionratio") && prob {
            self.priv_params.deletion_threshold = f.threshold;
            ok
        } else if chars_equal(nm, "killenable") && is_bool {
            self.priv_params.kill_enable = bv;
            ok
        } else if chars_equal(nm, "sexualreproduction") && is_bool {
            self.priv_params.sexual_reproduction = bv;
            ok
        } else if chars_equal(nm, "chooseparentsbyfitness") && is_bool {
            self.priv_params.choose_parents_by_fitness = bv;
            ok
        } else if chars_equal(nm, "populationsensorradius") && f.parsed && f.positive {
            self.priv_params.population_sensor_radius_num = f.radius_num; self.priv_params.population_sensor_radius_den = f.radius_den;
            IngestResult::KeepFloat(FloatParameter::PopulationSensorRadius)
        } else if chars_equal(nm, "signalsensorradius") && f.parsed && f.positive {
            self.priv_params.signal_sensor_radius_num = f.radius_num; self.priv_params.signal_sensor_radius_den = f.radius_den;
            IngestResult::KeepFloat(FloatParameter::SignalSensorRadius)
        } else if chars_equal(nm, "responsiveness") && f.parsed && f.nonnegative {
            IngestResult::KeepFloat(FloatParameter::Responsiveness)
        } else {
            self.ingest_names_4(nm, v, f, facts)
        }
    }


    /// Reads the names of `ingested_names_4`.
    #[verifier::rlimit(50)]
    fn ingest_names_4(&mut self, nm: &Vec<char>, v: &Vec<char>, f: &FloatValue, facts: &ValueFacts) -> (r: IngestResult)
        ensures
            (final(self).params(), r) == ingested_names_4(old(self).params(), nm@, v@, *f, *facts),
            final(self).params().log_dir == old(self).params().log_dir,
            final(self).params().image_dir == old(self).params().image_dir,
            final(self).params().graph_log_update_command == old(self).params().graph_log_update_command,
            final(self).config_filename_view() == old(self).config_filename_view(),
    {
        proof {
            reveal(ingested_names_4);
        }
        let is_uint = facts.is_uint;
        let uv = facts.uv;
        let is_bool = facts.is_bool;
        let bv = facts.bv;
        let prob = facts.prob;
        let is_video_stride = facts.is_video_stride;
        let ok = IngestResult::Stored;
        if chars_equal(nm, "responsivenesscurvekfactor") && is_uint && 1 <= uv && uv <= 20 {
            self.priv_params.responsiveness_curve_k_factor = uv;
            ok
        } else if chars_equal(nm, "longprobedistance") && is_uint && uv > 0 {
            self.priv_params.long_probe_distance = uv;
            ok
        } else if chars_equal(nm, "shortprobebarrierdistance") && is_uint && uv > 0 {
            self.priv_params.short_probe_barrier_distance = uv;
            ok
        } else if chars_equal(nm, "valencesaturationmag") && f.parsed && f.nonnegative {
            IngestResult::KeepFloat(FloatParameter::ValenceSaturationMag)
        } else if chars_equal(nm, "savevideo") && is_bool {
            self.priv_params.save_video = bv;
            ok
        } else if chars_equal(nm, "videostride") && is_uint && uv > 0 {
            self.priv_params.video_stride = uv;
            ok
        } else if chars_equal(nm, "videosavefirstframes") && is_uint {
            self.priv_params.video_save_first_frames = uv;
            ok
        } else if chars_equal(nm, "videoframerate") && is_uint && uv > 0 {
            self.priv_params.video_framerate = uv;
            ok
        } else {
            self.ingest_names_5(nm, v, f, facts)
        }
    }


    /// Reads the names of `ingested_names_5`.
    #[verifier::rlimit(50)]
    fn ingest_names_5(&mut self, nm: &Vec<char>, v: &Vec<char>, f: &FloatValue, facts: &ValueFacts) -> (r: IngestResult)
        ensures
            (final(self).params(), r) == ingested_names_5(old(self).params(), nm@, v@, *f, *facts),
            final(self).params().log_dir == old(self).params().log_dir,
            final(self).params().image_dir == old(self).params().image_dir,
            final(self).params().graph_log_update_command == old(self).params().graph_log_update_command,
            final(self).config_filename_view() == old(self).config_filename_view(),
    {
        proof {
            reveal(ingested_names_5);
        }
        let is_uint = facts.is_uint;
        let uv = facts.uv;
        let is_bool = facts.is_bool;
        let bv = facts.bv;
        let prob = facts.prob;
        let is_video_stride = facts.is_video_stride;
        let ok = IngestResult::Stored;
        if chars_equal(nm, "displayscale") && is_uint && uv > 0 {
            self.priv_params.display_scale = uv;
            ok
        } else if chars_equal(nm, "displayenabled") && is_bool {
            self.priv_params.display_enabled = bv;
            ok
        } else if chars_equal(nm, "displaychallengearea") && is_bool {
            self.priv_params.display_challenge_area = bv;
            ok
        } else if chars_equal(nm, "displaychallengeareaopacity") && prob {
            IngestResult::KeepFloat(FloatParameter::DisplayChallengeAreaOpacity)
        } else if chars_equal(nm, "displaychallengeareacolor") {
            self.ingest_color(v)
        } else if chars_equal(nm, "agentsize") && is_uint && uv > 0 {
            self.priv_params.agent_size = uv;
            ok
        } else if chars_equal(nm, "genomeanalysisstride") && is_video_stride {
            self.priv_params.genome_analysis_stride = self.priv_params.video_stride;
            ok
        } else if chars_equal(nm, "genomeanalysisstride") && is_uint && uv > 0 {
            self.priv_params.genome_analysis_stride = uv;
            ok
        } else {
            self.ingest_names_6(nm, v, f, facts)
        }
    }


    /// Reads the names of `ingested_names_6`.
    #[verifier::rlimit(50)]
    fn ingest_names_6(&mut self, nm: &Vec<char>, v: &Vec<char>, f: &FloatValue, facts: &ValueFacts) -> (r: IngestResult)
        ensures
            (final(self).params(), r) == ingested_names_6(old(self).params(), nm@, v@, *f, *facts),
            final(self).params().log_dir == old(self).params().log_dir,
            final(self).params().image_dir == old(self).params().image_dir,
            final(self).params().graph_log_update_command == old(self).params().graph_log_update_command,
            final(self).config_filename_view() == old(self).config_filename_view(),
    {
        proof {
            reveal(ingested_names_6);
        }
        let is_uint = facts.is_uint;
        let uv = facts.uv;
        let is_bool = facts.is_bool;
        let bv = facts.bv;
        let prob = facts.prob;
        let is_video_stride = facts.is_video_stride;
        let ok = IngestResult::Stored;
        if chars_equal(nm, "displaysamplegenomes") && is_uint {
            self.priv_params.display_sample_genomes = uv;
            ok
        } else if chars_equal(nm, "genomecomparisonmethod") && is_uint {
            self.priv_params.genome_comparison_method = uv;
            ok
        } else if chars_equal(nm, "updategraphlog") && is_bool {
            self.priv_params.update_graph_log = bv;
            ok
        } else if chars_equal(nm, "updategraphlogstride") && is_video_stride {
            self.priv_params.update_graph_log_stride = self.priv_params.video_stride;
            ok
        } else if chars_equal(nm, "updategraphlogstride") && is_uint && uv > 0 {
            self.priv_params.update_graph_log_stride = uv;
            ok
        } else if chars_equal(nm, "deterministic") && is_bool {
            self.priv_params.deterministic = bv;
            ok
        } else if chars_equal(nm, "rngseed") && is_uint {
            self.priv_params.rng_seed = uv;
            ok
        } else {
            IngestResult::Invalid
        }
    }
}

} // verus!
