//! A biological evolution simulator: creatures with neural-net brains
//! encoded by genomes live on a 2D grid and evolve by natural selection.

pub mod basic_types;
pub mod random;
pub mod sensors_actions;
pub mod analysis;
pub mod grid;
pub mod signals;
pub mod genome_neurons;
pub mod params;
pub mod neural_net;
pub mod indiv;
pub mod peeps;
pub mod simulator;
pub mod survival_criteria;
pub mod create_barrier;
pub mod spawn_new_generation;
pub mod get_sensor;
pub mod execute_actions;
pub mod end_of_sim_step;
pub mod text;
pub mod genome_compare;
pub mod speciation;
pub mod image_frame;
pub mod frame_pixels;
pub mod ranking;
pub mod altruism;
pub mod challenge_area;
pub mod multi_objective;
