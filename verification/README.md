# biosimrust

A simulator of creatures that evolve by natural selection in a 2D arena.
Each creature has a genome that wires a small neural network; sensors feed
the network, actions move the creature, emit pheromones or kill a
neighbour, and at the end of a generation the survivors of a challenge
become the parents of the next one.

The library in `src/` holds the simulation's logic, each function with a
contract checked by Verus:

- `basic_types`: directions, coordinates, polar vectors and their laws.
- `random`: the seeded generator of 32-bit draws.
- `grid`, `signals`, `peeps`, `indiv`: the arena, the pheromone layers, the
  population with its queued deaths and moves, and the individuals.
- `genome_neurons`, `neural_net`: genomes, their mutation and
  recombination, and the wiring of a genome into a brain.
- `get_sensor`, `execute_actions`: what a sensor reads (as the exact
  quantities its value is computed from) and the effects of actions.
- `survival_criteria`, `spawn_new_generation`, `create_barrier`,
  `end_of_sim_step`, `simulator`: the challenges and the life cycle of a
  generation.
- `genome_compare`, `speciation`: genome similarity and compatibility
  distance as exact fractions, and the species registry.
- `ranking`, `altruism`, `multi_objective`: stable ranking by score keys,
  the kin that a sacrifice saves, and Pareto fronts of candidate parents
  with the selection from them.
- `params`, `text`: the parameter file's lines and values.
- `image_frame`, `frame_pixels`, `challenge_area`, `analysis`: what a
  video frame shows, its pixels and the marks of a challenge's area, and
  the counts behind the reports.

Values that the simulation keeps in single precision (neuron activations,
action levels, fitness, probabilities given as decimals) are handled by the
program in `app/`: probabilities reach the library as the number of 32-bit
draws below them, radii as exact fractions. The program also reads the
parameter file, shows and saves frames, calls FFmpeg and writes the logs.

Run it with the name of a parameter file (`biosimrust.ini` by default).
