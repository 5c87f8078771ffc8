use term_life::{CellState, CellWrite, Simulation, SimulationEvent};

fn alive_cells(sim: &Simulation) -> Vec<(u16, u16)> {
    let mut cells = Vec::new();
    let mut y: u16 = 1;
    while y <= sim.height() {
        let mut x: u16 = 1;
        while x <= sim.width() {
            if sim.cell_at(x, y) == Some(CellState::Alive) {
                cells.push((x, y));
            }
            x += 1;
        }
        y += 1;
    }
    cells
}

fn with_alive(width: u16, height: u16, cells: &[(u16, u16)]) -> Simulation {
    let mut sim = Simulation::new(width, height);
    for &(x, y) in cells {
        sim.toggle_cell(x, y);
    }
    sim
}

#[test]
fn new_simulation_is_paused_and_dead() {
    let sim = Simulation::new(7, 5);
    assert!(!sim.is_running());
    assert_eq!(sim.width(), 7);
    assert_eq!(sim.height(), 5);
    assert_eq!(alive_cells(&sim), vec![]);
    assert_eq!(sim.cell_at(1, 1), Some(CellState::Dead));
    assert_eq!(sim.cell_at(7, 5), Some(CellState::Dead));
}

#[test]
fn cell_at_knows_the_edges_of_the_screen() {
    let sim = Simulation::new(7, 5);
    assert_eq!(sim.cell_at(0, 1), None);
    assert_eq!(sim.cell_at(1, 0), None);
    assert_eq!(sim.cell_at(8, 1), None);
    assert_eq!(sim.cell_at(1, 6), None);
    assert_eq!(sim.cell_at(u16::MAX, u16::MAX), None);
}

#[test]
fn empty_terminal_has_no_cells() {
    let mut sim = Simulation::new(0, 0);
    assert_eq!(sim.cell_at(1, 1), None);
    assert_eq!(sim.tick(), vec![]);
    let mut flat = Simulation::new(5, 0);
    assert_eq!(flat.tick(), vec![]);
    let mut thin = Simulation::new(0, 5);
    assert_eq!(thin.tick(), vec![]);
    assert_eq!(thin.cell_at(1, 1), None);
}

#[test]
fn toggle_maps_terminal_position_to_row_and_column() {
    let mut sim = Simulation::new(7, 5);
    let write = sim.toggle_cell(3, 2);
    assert_eq!(write, CellWrite { x: 3, y: 2, glyph: 'o' });
    assert_eq!(alive_cells(&sim), vec![(3, 2)]);
    assert_eq!(sim.cell_at(2, 3), Some(CellState::Dead));
}

#[test]
fn toggle_twice_restores_the_cell_with_two_writes() {
    let mut sim = Simulation::new(7, 5);
    let first = sim.toggle_cell(7, 5);
    let second = sim.toggle_cell(7, 5);
    assert_eq!(first, CellWrite { x: 7, y: 5, glyph: 'o' });
    assert_eq!(second, CellWrite { x: 7, y: 5, glyph: ' ' });
    assert_eq!(sim.cell_at(7, 5), Some(CellState::Dead));
    assert_eq!(alive_cells(&sim), vec![]);
}

#[test]
fn toggle_twice_on_a_live_cell_writes_dead_then_alive() {
    let mut sim = with_alive(7, 5, &[(4, 4)]);
    let report = sim.drain(&vec![
        SimulationEvent::ToggleCellAt(4, 4),
        SimulationEvent::ToggleCellAt(4, 4),
    ]);
    assert_eq!(
        report.writes,
        vec![CellWrite { x: 4, y: 4, glyph: ' ' }, CellWrite { x: 4, y: 4, glyph: 'o' }]
    );
    assert!(!report.quit);
    assert_eq!(alive_cells(&sim), vec![(4, 4)]);
}

#[test]
fn toggle_works_while_paused_and_while_running() {
    let mut sim = Simulation::new(7, 5);
    assert_eq!(sim.apply(SimulationEvent::ToggleCellAt(1, 1)), Some(CellWrite { x: 1, y: 1, glyph: 'o' }));
    assert_eq!(sim.apply(SimulationEvent::TogglePlayback), None);
    assert!(sim.is_running());
    assert_eq!(sim.apply(SimulationEvent::ToggleCellAt(1, 1)), Some(CellWrite { x: 1, y: 1, glyph: ' ' }));
    assert_eq!(sim.cell_at(1, 1), Some(CellState::Dead));
}

#[test]
fn toggle_playback_inverts_running() {
    let mut sim = Simulation::new(3, 3);
    assert_eq!(sim.apply(SimulationEvent::TogglePlayback), None);
    assert!(sim.is_running());
    assert_eq!(sim.apply(SimulationEvent::TogglePlayback), None);
    assert!(!sim.is_running());
}

#[test]
fn quit_leaves_the_simulation_as_it_is() {
    let mut sim = with_alive(3, 3, &[(2, 2)]);
    assert_eq!(sim.apply(SimulationEvent::Quit), None);
    assert!(!sim.is_running());
    assert_eq!(alive_cells(&sim), vec![(2, 2)]);
}

#[test]
fn accepts_only_cells_on_the_screen() {
    let sim = Simulation::new(7, 5);
    assert!(sim.accepts(SimulationEvent::Quit));
    assert!(sim.accepts(SimulationEvent::TogglePlayback));
    assert!(sim.accepts(SimulationEvent::ToggleCellAt(1, 1)));
    assert!(sim.accepts(SimulationEvent::ToggleCellAt(7, 5)));
    assert!(!sim.accepts(SimulationEvent::ToggleCellAt(0, 1)));
    assert!(!sim.accepts(SimulationEvent::ToggleCellAt(1, 0)));
    assert!(!sim.accepts(SimulationEvent::ToggleCellAt(8, 5)));
    assert!(!sim.accepts(SimulationEvent::ToggleCellAt(7, 6)));
    assert!(!sim.accepts(SimulationEvent::ToggleCellAt(5, 7)));
}

#[test]
fn lone_cell_dies_of_underpopulation() {
    let mut sim = with_alive(7, 5, &[(3, 3)]);
    let writes = sim.tick();
    assert_eq!(writes, vec![CellWrite { x: 3, y: 3, glyph: ' ' }]);
    assert_eq!(alive_cells(&sim), vec![]);
}

#[test]
fn cell_with_one_neighbour_dies() {
    let mut sim = with_alive(7, 5, &[(3, 3), (4, 3)]);
    sim.tick();
    assert_eq!(alive_cells(&sim), vec![]);
}

#[test]
fn cell_with_two_neighbours_survives() {
    let mut sim = with_alive(7, 7, &[(3, 3), (4, 4), (5, 5)]);
    sim.tick();
    assert_eq!(alive_cells(&sim), vec![(4, 4)]);
}

#[test]
fn cell_with_four_neighbours_dies_of_overpopulation() {
    let mut sim = with_alive(7, 7, &[(4, 4), (3, 3), (5, 3), (3, 5), (5, 5)]);
    sim.tick();
    assert_eq!(sim.cell_at(4, 4), Some(CellState::Dead));
}

#[test]
fn dead_cell_with_three_neighbours_is_born_in_the_grid() {
    let mut sim = with_alive(7, 7, &[(3, 3), (5, 3), (4, 5)]);
    let writes = sim.tick();
    assert_eq!(sim.cell_at(4, 4), Some(CellState::Alive));
    assert!(writes.contains(&CellWrite { x: 4, y: 4, glyph: 'o' }));
}

#[test]
fn corner_cell_counts_its_neighbours_across_the_edges() {
    // The eight cells around the upper left corner of a 6 by 5 terminal, as
    // terminal positions: the last row, the first two rows, the last column
    // and the first two columns.
    let around: [(u16, u16); 8] =
        [(6, 5), (1, 5), (2, 5), (6, 1), (2, 1), (6, 2), (1, 2), (2, 2)];
    let mut a = 0;
    while a < 8 {
        // one neighbour: the corner dies
        let mut one = with_alive(6, 5, &[(1, 1), around[a]]);
        one.tick();
        assert_eq!(one.cell_at(1, 1), Some(CellState::Dead));
        let mut b = a + 1;
        while b < 8 {
            // two neighbours: the corner lives on
            let mut two = with_alive(6, 5, &[(1, 1), around[a], around[b]]);
            two.tick();
            assert_eq!(two.cell_at(1, 1), Some(CellState::Alive));
            let mut c = b + 1;
            while c < 8 {
                // three neighbours: a dead corner is born
                let mut three = with_alive(6, 5, &[around[a], around[b], around[c]]);
                three.tick();
                assert_eq!(three.cell_at(1, 1), Some(CellState::Alive));
                c += 1;
            }
            b += 1;
        }
        a += 1;
    }
}

#[test]
fn cells_that_are_no_neighbours_are_not_counted() {
    let mut sim = with_alive(6, 5, &[(3, 1), (3, 2), (3, 3), (1, 3), (2, 3), (5, 4), (1, 4)]);
    sim.toggle_cell(1, 1);
    sim.tick();
    assert_eq!(sim.cell_at(1, 1), Some(CellState::Dead));
}

#[test]
fn opposite_corner_wraps_to_the_first_row_and_column() {
    let mut sim = with_alive(6, 5, &[(1, 1), (1, 5), (6, 1)]);
    sim.tick();
    // (6, 5) has the three of them around it and is born
    assert_eq!(sim.cell_at(6, 5), Some(CellState::Alive));
}

#[test]
fn single_cell_torus_is_its_own_eight_neighbours() {
    let mut sim = with_alive(1, 1, &[(1, 1)]);
    let writes = sim.tick();
    assert_eq!(writes, vec![CellWrite { x: 1, y: 1, glyph: ' ' }]);
    assert_eq!(sim.cell_at(1, 1), Some(CellState::Dead));
}

#[test]
fn two_by_two_torus_counts_each_neighbour_twice_or_four_times() {
    // On a torus of two rows and columns the cell beside counts twice, the
    // cell below twice, the cell across four times.
    let mut beside = with_alive(2, 2, &[(1, 1), (2, 1)]);
    beside.tick();
    // each of the two has two live neighbours and lives on; the two dead
    // cells have four and stay dead
    assert_eq!(alive_cells(&beside), vec![(1, 1), (2, 1)]);
    let mut across = with_alive(2, 2, &[(1, 1), (2, 2)]);
    across.tick();
    // each of the two has four live neighbours and dies
    assert_eq!(alive_cells(&across), vec![]);
}

#[test]
fn step_reads_the_previous_generation_only() {
    // A row of three: were the step to read what it has just written, the
    // middle cell would see its left neighbour dead already.
    let mut sim = with_alive(9, 9, &[(4, 5), (5, 5), (6, 5)]);
    sim.tick();
    assert_eq!(alive_cells(&sim), vec![(5, 4), (5, 5), (5, 6)]);
}

#[test]
fn block_is_unchanged_by_any_number_of_steps() {
    let mut sim = with_alive(4, 4, &[(2, 2), (3, 2), (2, 3), (3, 3)]);
    let mut n = 0;
    while n < 25 {
        assert_eq!(sim.tick(), vec![]);
        assert_eq!(alive_cells(&sim), vec![(2, 2), (3, 2), (2, 3), (3, 3)]);
        n += 1;
    }
}

#[test]
fn block_across_the_edge_is_unchanged() {
    let mut sim = with_alive(6, 4, &[(6, 4), (1, 4), (6, 1), (1, 1)]);
    let mut n = 0;
    while n < 10 {
        assert_eq!(sim.tick(), vec![]);
        n += 1;
    }
    assert_eq!(alive_cells(&sim), vec![(1, 1), (6, 1), (1, 4), (6, 4)]);
}

#[test]
fn blinker_oscillates_with_period_two() {
    let mut sim = with_alive(5, 5, &[(2, 3), (3, 3), (4, 3)]);
    let first = sim.tick();
    assert_eq!(alive_cells(&sim), vec![(3, 2), (3, 3), (3, 4)]);
    assert_eq!(
        first,
        vec![
            CellWrite { x: 3, y: 2, glyph: 'o' },
            CellWrite { x: 2, y: 3, glyph: ' ' },
            CellWrite { x: 4, y: 3, glyph: ' ' },
            CellWrite { x: 3, y: 4, glyph: 'o' },
        ]
    );
    let second = sim.tick();
    assert_eq!(alive_cells(&sim), vec![(2, 3), (3, 3), (4, 3)]);
    assert_eq!(
        second,
        vec![
            CellWrite { x: 3, y: 2, glyph: ' ' },
            CellWrite { x: 2, y: 3, glyph: 'o' },
            CellWrite { x: 4, y: 3, glyph: 'o' },
            CellWrite { x: 3, y: 4, glyph: ' ' },
        ]
    );
}

#[test]
fn blinker_at_the_edge_oscillates_across_it() {
    let mut sim = with_alive(7, 6, &[(7, 1), (1, 1), (2, 1)]);
    sim.tick();
    assert_eq!(alive_cells(&sim), vec![(1, 1), (1, 2), (1, 6)]);
    sim.tick();
    assert_eq!(alive_cells(&sim), vec![(1, 1), (2, 1), (7, 1)]);
}

#[test]
fn step_writes_exactly_the_cells_that_changed() {
    // a glider and a few scattered cells
    let mut sim = with_alive(
        12,
        9,
        &[(2, 1), (3, 2), (1, 3), (2, 3), (3, 3), (9, 7), (10, 7), (12, 9), (7, 2)],
    );
    let mut n = 0;
    while n < 12 {
        let mut before = Vec::new();
        let mut y: u16 = 1;
        while y <= 9 {
            let mut x: u16 = 1;
            while x <= 12 {
                before.push(sim.cell_at(x, y).unwrap());
                x += 1;
            }
            y += 1;
        }
        let writes = sim.tick();
        let mut expected = Vec::new();
        let mut y: u16 = 1;
        while y <= 9 {
            let mut x: u16 = 1;
            while x <= 12 {
                let now = sim.cell_at(x, y).unwrap();
                if now != before[((y - 1) * 12 + (x - 1)) as usize] {
                    expected.push(CellWrite { x, y, glyph: now.glyph() });
                }
                x += 1;
            }
            y += 1;
        }
        assert_eq!(writes, expected);
        n += 1;
    }
}

#[test]
fn glider_moves_one_cell_diagonally_in_four_steps() {
    let mut sim = with_alive(10, 10, &[(2, 1), (3, 2), (1, 3), (2, 3), (3, 3)]);
    let mut n = 0;
    while n < 4 {
        sim.tick();
        n += 1;
    }
    assert_eq!(alive_cells(&sim), vec![(3, 2), (4, 3), (2, 4), (3, 4), (4, 4)]);
}

#[test]
fn tick_steps_whether_or_not_the_simulation_runs() {
    let mut sim = with_alive(5, 5, &[(3, 3)]);
    assert!(!sim.is_running());
    assert_eq!(sim.tick().len(), 1);
    assert!(!sim.is_running());
}

#[test]
fn advance_steps_only_a_running_simulation() {
    let mut sim = with_alive(5, 5, &[(3, 3)]);
    assert_eq!(sim.advance(), vec![]);
    assert_eq!(alive_cells(&sim), vec![(3, 3)]);
    sim.apply(SimulationEvent::TogglePlayback);
    assert_eq!(sim.advance(), vec![CellWrite { x: 3, y: 3, glyph: ' ' }]);
    assert_eq!(alive_cells(&sim), vec![]);
    assert!(sim.is_running());
}

#[test]
fn widest_terminal_wraps_at_the_last_column() {
    let mut sim = with_alive(u16::MAX, 1, &[(u16::MAX, 1), (1, 1), (2, 1)]);
    let writes = sim.tick();
    // On a torus of one row the rows above and below a cell are its own:
    // around it are the cell to its left three times, the cell to its right
    // three times and the cell itself twice. The three live cells have five
    // or eight live neighbours and die, and the dead cells beside them have
    // three and are born.
    assert_eq!(
        writes,
        vec![
            CellWrite { x: 1, y: 1, glyph: ' ' },
            CellWrite { x: 2, y: 1, glyph: ' ' },
            CellWrite { x: 3, y: 1, glyph: 'o' },
            CellWrite { x: u16::MAX - 1, y: 1, glyph: 'o' },
            CellWrite { x: u16::MAX, y: 1, glyph: ' ' },
        ]
    );
    assert_eq!(sim.cell_at(u16::MAX, 1), Some(CellState::Dead));
    assert_eq!(sim.cell_at(u16::MAX - 1, 1), Some(CellState::Alive));
}
