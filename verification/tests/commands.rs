use term_life::input::listen;
use term_life::{CellState, CellWrite, InputEvent, Simulation, SimulationEvent};

fn live(sim: &Simulation) -> Vec<(u16, u16)> {
    let mut cells = Vec::new();
    let mut y: u16 = 1;
    while y <= sim.height() {
        let mut x: u16 = 1;
        while x <= sim.width() {
            if sim.cell_at(x, y) == Some(CellState::Alive) {
                cells.push((x, y));
            }
            x += 1;
        }
        y += 1;
    }
    cells
}

#[test]
fn drain_applies_commands_in_order() {
    let mut sim = Simulation::new(6, 6);
    let report = sim.drain(&vec![
        SimulationEvent::ToggleCellAt(2, 3),
        SimulationEvent::TogglePlayback,
        SimulationEvent::ToggleCellAt(5, 1),
        SimulationEvent::ToggleCellAt(2, 3),
    ]);
    assert_eq!(
        report.writes,
        vec![
            CellWrite { x: 2, y: 3, glyph: 'o' },
            CellWrite { x: 5, y: 1, glyph: 'o' },
            CellWrite { x: 2, y: 3, glyph: ' ' },
        ]
    );
    assert!(!report.quit);
    assert!(sim.is_running());
    assert_eq!(live(&sim), vec![(5, 1)]);
}

#[test]
fn drain_of_nothing_does_nothing() {
    let mut sim = Simulation::new(6, 6);
    let report = sim.drain(&vec![]);
    assert_eq!(report.writes, vec![]);
    assert!(!report.quit);
    assert!(!sim.is_running());
}

#[test]
fn drain_stops_at_quit() {
    let mut sim = Simulation::new(6, 6);
    let report = sim.drain(&vec![
        SimulationEvent::ToggleCellAt(1, 1),
        SimulationEvent::Quit,
        SimulationEvent::ToggleCellAt(2, 2),
        SimulationEvent::TogglePlayback,
        SimulationEvent::Quit,
    ]);
    assert!(report.quit);
    assert_eq!(report.writes, vec![CellWrite { x: 1, y: 1, glyph: 'o' }]);
    assert!(!sim.is_running());
    assert_eq!(live(&sim), vec![(1, 1)]);
}

#[test]
fn drain_does_not_look_at_what_follows_quit() {
    let mut sim = Simulation::new(6, 6);
    // the toggle behind the quit is off the screen, and never applied
    let report = sim.drain(&vec![SimulationEvent::Quit, SimulationEvent::ToggleCellAt(60, 60)]);
    assert!(report.quit);
    assert_eq!(report.writes, vec![]);
    assert_eq!(live(&sim), vec![]);
}

#[test]
fn cycle_steps_before_it_drains() {
    let mut sim = Simulation::new(5, 5);
    sim.drain(&vec![
        SimulationEvent::ToggleCellAt(2, 3),
        SimulationEvent::ToggleCellAt(3, 3),
        SimulationEvent::ToggleCellAt(4, 3),
        SimulationEvent::TogglePlayback,
    ]);
    let report = sim.cycle(&vec![SimulationEvent::ToggleCellAt(1, 1)]);
    assert_eq!(
        report.writes,
        vec![
            CellWrite { x: 3, y: 2, glyph: 'o' },
            CellWrite { x: 2, y: 3, glyph: ' ' },
            CellWrite { x: 4, y: 3, glyph: ' ' },
            CellWrite { x: 3, y: 4, glyph: 'o' },
            CellWrite { x: 1, y: 1, glyph: 'o' },
        ]
    );
    assert!(!report.quit);
    assert_eq!(live(&sim), vec![(1, 1), (3, 2), (3, 3), (3, 4)]);
}

#[test]
fn cycle_of_a_paused_simulation_only_drains() {
    let mut sim = Simulation::new(5, 5);
    sim.toggle_cell(3, 3);
    let report = sim.cycle(&vec![]);
    assert_eq!(report.writes, vec![]);
    assert_eq!(live(&sim), vec![(3, 3)]);
}

#[test]
fn toggle_takes_effect_in_the_next_step() {
    let mut sim = Simulation::new(5, 5);
    let batches = vec![
        vec![
            SimulationEvent::ToggleCellAt(2, 3),
            SimulationEvent::ToggleCellAt(3, 3),
            SimulationEvent::TogglePlayback,
        ],
        // the simulation runs now: the two cells die in this turn's step,
        // and the third, toggled after the step, is alone in the next
        vec![SimulationEvent::ToggleCellAt(4, 3)],
        vec![],
    ];
    let report = sim.run(&batches);
    assert_eq!(
        report.writes,
        vec![
            CellWrite { x: 2, y: 3, glyph: 'o' },
            CellWrite { x: 3, y: 3, glyph: 'o' },
            CellWrite { x: 2, y: 3, glyph: ' ' },
            CellWrite { x: 3, y: 3, glyph: ' ' },
            CellWrite { x: 4, y: 3, glyph: 'o' },
            CellWrite { x: 4, y: 3, glyph: ' ' },
        ]
    );
    assert!(!report.quit);
    assert_eq!(live(&sim), vec![]);
}

#[test]
fn run_ends_with_the_batch_that_holds_quit() {
    let mut sim = Simulation::new(5, 5);
    let batches = vec![
        vec![SimulationEvent::ToggleCellAt(1, 1)],
        vec![SimulationEvent::ToggleCellAt(2, 2), SimulationEvent::Quit, SimulationEvent::ToggleCellAt(3, 3)],
        vec![SimulationEvent::ToggleCellAt(4, 4), SimulationEvent::TogglePlayback],
        vec![SimulationEvent::ToggleCellAt(5, 5)],
    ];
    let report = sim.run(&batches);
    assert!(report.quit);
    assert_eq!(
        report.writes,
        vec![CellWrite { x: 1, y: 1, glyph: 'o' }, CellWrite { x: 2, y: 2, glyph: 'o' }]
    );
    assert_eq!(live(&sim), vec![(1, 1), (2, 2)]);
    assert!(!sim.is_running());
}

#[test]
fn run_is_the_same_whatever_follows_quit() {
    let mut short = Simulation::new(5, 5);
    let mut long = Simulation::new(5, 5);
    let start = vec![
        SimulationEvent::ToggleCellAt(2, 3),
        SimulationEvent::ToggleCellAt(3, 3),
        SimulationEvent::ToggleCellAt(4, 3),
        SimulationEvent::TogglePlayback,
    ];
    let a = short.run(&vec![start.clone(), vec![], vec![SimulationEvent::Quit]]);
    let b = long.run(&vec![
        start,
        vec![],
        vec![SimulationEvent::Quit, SimulationEvent::ToggleCellAt(1, 1), SimulationEvent::TogglePlayback],
        vec![SimulationEvent::ToggleCellAt(5, 5)],
        vec![SimulationEvent::Quit],
    ]);
    assert_eq!(a.writes, b.writes);
    assert_eq!(a.quit, b.quit);
    assert!(a.quit);
    assert_eq!(live(&short), live(&long));
    assert_eq!(live(&short), vec![(2, 3), (3, 3), (4, 3)]);
    assert_eq!(short.is_running(), long.is_running());
}

#[test]
fn run_without_quit_uses_every_batch() {
    let mut sim = Simulation::new(5, 5);
    let report = sim.run(&vec![
        vec![SimulationEvent::TogglePlayback],
        vec![SimulationEvent::ToggleCellAt(3, 3)],
        vec![],
    ]);
    assert!(!report.quit);
    assert_eq!(
        report.writes,
        vec![CellWrite { x: 3, y: 3, glyph: 'o' }, CellWrite { x: 3, y: 3, glyph: ' ' }]
    );
    assert!(sim.is_running());
}

#[test]
fn run_of_no_batches_does_nothing() {
    let mut sim = Simulation::new(5, 5);
    let report = sim.run(&vec![]);
    assert!(!report.quit);
    assert_eq!(report.writes, vec![]);
}

#[test]
fn paused_simulation_does_not_step_between_batches() {
    let mut sim = Simulation::new(5, 5);
    let report = sim.run(&vec![vec![SimulationEvent::ToggleCellAt(3, 3)], vec![], vec![], vec![]]);
    assert_eq!(report.writes, vec![CellWrite { x: 3, y: 3, glyph: 'o' }]);
    assert_eq!(live(&sim), vec![(3, 3)]);
}

fn put(screen: &mut Vec<Vec<char>>, writes: &[CellWrite]) {
    for write in writes {
        screen[(write.y - 1) as usize][(write.x - 1) as usize] = write.glyph;
    }
}

fn picture(sim: &Simulation) -> Vec<Vec<char>> {
    let mut rows = Vec::new();
    let mut y: u16 = 1;
    while y <= sim.height() {
        let mut row = Vec::new();
        let mut x: u16 = 1;
        while x <= sim.width() {
            row.push(sim.cell_at(x, y).unwrap().glyph());
            x += 1;
        }
        rows.push(row);
        y += 1;
    }
    rows
}

#[test]
fn screen_stays_in_step_with_the_grid() {
    let mut sim = Simulation::new(9, 7);
    let mut screen = picture(&sim);
    // a small generator of commands, the same on every run
    let mut seed: u32 = 12345;
    let mut turn = 0;
    while turn < 200 {
        let mut batch = Vec::new();
        let mut n = 0;
        while n < 4 {
            seed = seed.wrapping_mul(1664525).wrapping_add(1013904223);
            let pick = (seed >> 16) % 8;
            if pick == 0 {
                batch.push(SimulationEvent::TogglePlayback);
            } else {
                let x = ((seed >> 8) % 9) as u16 + 1;
                let y = ((seed >> 20) % 7) as u16 + 1;
                batch.push(SimulationEvent::ToggleCellAt(x, y));
            }
            n += 1;
        }
        let report = sim.cycle(&batch);
        put(&mut screen, &report.writes);
        assert_eq!(screen, picture(&sim));
        turn += 1;
    }
}

#[test]
fn writes_of_a_run_bring_the_screen_to_the_last_grid() {
    let mut sim = Simulation::new(8, 8);
    let mut screen = picture(&sim);
    let report = sim.run(&vec![
        vec![
            SimulationEvent::ToggleCellAt(2, 1),
            SimulationEvent::ToggleCellAt(3, 2),
            SimulationEvent::ToggleCellAt(1, 3),
            SimulationEvent::ToggleCellAt(2, 3),
            SimulationEvent::ToggleCellAt(3, 3),
            SimulationEvent::TogglePlayback,
        ],
        vec![],
        vec![SimulationEvent::ToggleCellAt(6, 6)],
        vec![],
        vec![SimulationEvent::TogglePlayback, SimulationEvent::ToggleCellAt(6, 6)],
        vec![],
        vec![SimulationEvent::Quit],
    ]);
    assert!(report.quit);
    put(&mut screen, &report.writes);
    assert_eq!(screen, picture(&sim));
    for write in &report.writes {
        assert!(1 <= write.x && write.x <= 8 && 1 <= write.y && write.y <= 8);
        assert!(write.glyph == 'o' || write.glyph == ' ');
    }
}

#[test]
fn commands_of_the_listener_drive_the_simulation() {
    let sent = listen(&vec![
        InputEvent::Press(2, 2),
        InputEvent::Hold(3, 2),
        InputEvent::Char(' '),
        InputEvent::Char('q'),
        InputEvent::Press(4, 4),
    ]);
    let mut sim = Simulation::new(5, 5);
    let report = sim.drain(&sent);
    assert!(report.quit);
    assert!(sim.is_running());
    assert_eq!(live(&sim), vec![(2, 2), (3, 2)]);
}
