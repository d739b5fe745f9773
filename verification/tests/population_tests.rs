use biosimrust::basic_types::Coord;
use biosimrust::grid::{Grid, EMPTY};
use biosimrust::indiv::Indiv;
use biosimrust::peeps::Peeps;
use biosimrust::params::Params;
use biosimrust::random::RandomUintGenerator;
use biosimrust::signals::Signals;
use biosimrust::spawn_new_generation::{initialize_generation_0, spawn_new_generation};

fn place(peeps: &mut Peeps, grid: &mut Grid, index: u16, x: i16, y: i16) {
    let ind = &mut peeps.individuals[index as usize];
    ind.alive = true;
    ind.index = index;
    ind.loc = Coord { x, y };
    grid.set(Coord { x, y }, index);
}

fn living(index: u16) -> Indiv {
    let mut who = Indiv::new();
    who.alive = true;
    who.index = index;
    who
}

#[test]
fn deaths_and_moves_keep_grid_and_population_in_agreement() {
    let mut grid = Grid::new();
    grid.init(5, 5);
    let mut peeps = Peeps::new();
    peeps.init(3);
    place(&mut peeps, &mut grid, 1, 0, 0);
    place(&mut peeps, &mut grid, 2, 1, 1);
    place(&mut peeps, &mut grid, 3, 4, 4);

    peeps.queue_for_death(&living(2));
    peeps.queue_for_death(&living(2));
    assert_eq!(peeps.death_queue_size(), 2);
    peeps.queue_for_move(&living(1), Coord { x: 1, y: 1 });
    peeps.queue_for_move(&living(2), Coord { x: 2, y: 2 });
    peeps.queue_for_move(&living(3), Coord { x: 0, y: 0 });

    peeps.drain_death_queue(&mut grid);
    assert_eq!(peeps.death_queue_size(), 0);
    assert!(!peeps.individuals[2].alive);
    assert_eq!(grid.at(Coord { x: 1, y: 1 }), EMPTY);
    assert_eq!(grid.at(Coord { x: 0, y: 0 }), 1);

    peeps.drain_move_queue(&mut grid);
    // 1 takes the cell its dead neighbour left, 3 then takes the cell 1 left,
    // and the dead individual's move is dropped.
    assert_eq!(grid.at(Coord { x: 1, y: 1 }), 1);
    assert_eq!(grid.at(Coord { x: 0, y: 0 }), 3);
    assert_eq!(grid.at(Coord { x: 4, y: 4 }), EMPTY);
    assert_eq!(grid.at(Coord { x: 2, y: 2 }), EMPTY);
    assert_eq!(peeps.individuals[1].loc, Coord { x: 1, y: 1 });
    assert_eq!(peeps.individuals[3].loc, Coord { x: 0, y: 0 });
    assert_eq!(peeps.individuals[2].loc, Coord { x: 1, y: 1 });
    for index in 1..=3u16 {
        let ind = &peeps.individuals[index as usize];
        if ind.alive {
            assert_eq!(grid.at(ind.loc), index);
        }
    }
}

#[test]
fn blocked_moves_leave_everyone_in_place() {
    let mut grid = Grid::new();
    grid.init(3, 3);
    let mut peeps = Peeps::new();
    peeps.init(2);
    place(&mut peeps, &mut grid, 1, 0, 0);
    place(&mut peeps, &mut grid, 2, 0, 1);
    peeps.queue_for_move(&living(1), Coord { x: 0, y: 1 });
    peeps.drain_move_queue(&mut grid);
    assert_eq!(peeps.individuals[1].loc, Coord { x: 0, y: 0 });
    assert_eq!(grid.at(Coord { x: 0, y: 0 }), 1);
    assert_eq!(grid.at(Coord { x: 0, y: 1 }), 2);
}

#[test]
fn a_new_generation_stands_where_the_grid_says() {
    let mut params = Params::default();
    params.size_x = 12;
    params.size_y = 10;
    params.population = 40;
    params.barrier_type = 1;
    let mut grid = Grid::new();
    grid.init(params.size_x, params.size_y);
    let mut signals = Signals::new();
    signals.init(1, params.size_x, params.size_y);
    let mut peeps = Peeps::new();
    peeps.init(params.population);
    let mut rng = RandomUintGenerator::new();
    rng.initialize(true, 7, 0);
    let check = |peeps: &Peeps, grid: &Grid| {
        let mut occupied = 0;
        for x in 0..12i16 {
            for y in 0..10i16 {
                let v = grid.at(Coord { x, y });
                if v != EMPTY && v != biosimrust::grid::BARRIER {
                    occupied += 1;
                    assert!(peeps.individuals[v as usize].alive);
                    assert_eq!(peeps.individuals[v as usize].loc, Coord { x, y });
                }
            }
        }
        for i in 1..=40usize {
            assert!(peeps.individuals[i].alive);
            assert_eq!(grid.at(peeps.individuals[i].loc) as usize, i);
        }
        assert_eq!(occupied, 40);
    };
    initialize_generation_0(&mut grid, &mut signals, &mut peeps, &params, &mut rng);
    check(&peeps, &grid);
    let n = spawn_new_generation(&[3, 0, 7, 500], &mut grid, &mut signals, &mut peeps, &params, &mut rng);
    assert_eq!(n, 2);
    check(&peeps, &grid);
}
