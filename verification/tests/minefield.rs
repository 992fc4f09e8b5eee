use minefield::{FlagToggleResult, Minefield, SpotKind, SpotState, StepResult};

fn count_mines(minefield: &Minefield) -> u32 {
    let mut count = 0;
    for x in 0..minefield.width() {
        for y in 0..minefield.height() {
            if minefield.spot(x, y).unwrap().kind() == SpotKind::Mine {
                count += 1;
            }
        }
    }
    count
}

#[test]
fn new_minefield() {
    // Create empty test minefield:
    //     0 1 2
    // 0 [       ]
    // 1 [       ]
    // 2 [       ]
    // 3 [       ]
    //
    let width = 3;
    let height = 4;
    let minefield = Minefield::new(width, height);

    for x in 0..width {
        for y in 0..height {
            let spot = minefield.spot(x, y).unwrap();
            assert_eq!(spot.kind(), SpotKind::Empty(0));
            assert_eq!(spot.state(), SpotState::Hidden);
        }
    }
}

#[test]
fn place_mines() {
    // Create empty minefield
    let width = 3;
    let height = 4;
    let mut minefield = Minefield::new(width, height);

    // Place Mine
    //     0 1 2
    // 0 [   1 ☢ ]
    // 1 [   1 1 ]
    // 2 [       ]
    // 3 [       ]
    //
    let mine_x = 2;
    let mine_y = 0;
    minefield.place_mine(mine_x, mine_y);

    // Was mine placed correctly?
    assert_eq!(minefield.spot(mine_x, mine_y).unwrap().kind(), SpotKind::Mine);

    // Were the neighbors updated correctly?
    for (nx, ny) in minefield.neighbors_coords(mine_x, mine_y) {
        assert_eq!(minefield.spot(nx, ny).unwrap().kind(), SpotKind::Empty(1));
    }

    // Place another mine
    //     0 1 2
    // 0 [   1 ☢ ]
    // 1 [   1 1 ]
    // 2 [ 1 1   ]
    // 3 [ ☢ 1   ]
    let mine_x = 0;
    let mine_y = 3;
    minefield.place_mine(mine_x, mine_y);

    // Was mine placed correctly?
    assert_eq!(minefield.spot(mine_x, mine_y).unwrap().kind(), SpotKind::Mine);

    // Were the neighbors updated correctly?
    for (nx, ny) in minefield.neighbors_coords(mine_x, mine_y) {
        assert_eq!(minefield.spot(nx, ny).unwrap().kind(), SpotKind::Empty(1));
    }

    // Place another mine
    //     0 1 2
    // 0 [ 1 2 ☢ ]
    // 1 [ ☢ 2 1 ]
    // 2 [ 2 2   ]
    // 3 [ ☢ 1   ]
    let mine_x = 0;
    let mine_y = 1;
    minefield.place_mine(mine_x, mine_y);

    // Was mine placed correctly?
    assert_eq!(minefield.spot(mine_x, mine_y).unwrap().kind(), SpotKind::Mine);

    // Were the neighbors updated correctly?
    for n_coords in minefield.neighbors_coords(mine_x, mine_y) {
        let expected_mine_count = if n_coords == (0, 0) { 1 } else { 2 };
        assert_eq!(
            minefield.spot(n_coords.0, n_coords.1).unwrap().kind(),
            SpotKind::Empty(expected_mine_count)
        );
    }
}

#[test]
fn step() {
    // Create empty minefield
    let width = 3;
    let height = 4;
    let mut minefield = Minefield::new(width, height);

    // Place mines
    //     0 1 2
    // 0 [   1 ☢ ]
    // 1 [   1 1 ]
    // 2 [ 1 1   ]
    // 3 [ ☢ 1   ]
    let mine_x = 2;
    let mine_y = 0;
    minefield.place_mine(mine_x, mine_y);
    let mine_x = 0;
    let mine_y = 3;
    minefield.place_mine(mine_x, mine_y);

    // Step on spot neighboring mine
    let step_x = 1;
    let step_y = 2;
    let step_result = minefield.step(step_x, step_y);

    // Step was success, and only one spot was revealed
    //     0 1 2
    // 0 [ • • • ]
    // 1 [ • • • ]
    // 2 [ • 1 • ]
    // 3 [ • • • ]
    assert_eq!(step_result, StepResult::Phew);
    assert_eq!(
        minefield.spot(step_x, step_y).unwrap().state(),
        SpotState::Revealed
    );
    for (nx, ny) in minefield.neighbors_coords(step_x, step_y) {
        assert_eq!(minefield.spot(nx, ny).unwrap().state(), SpotState::Hidden);
    }

    // Step on spot with no neighboring mines
    let step_x = 0;
    let step_y = 1;
    let step_result = minefield.step(step_x, step_y);

    // Step was success, and neighbors were flood revealed
    //     0 1 2
    // 0 [   1 • ]
    // 1 [   1 • ]
    // 2 [ 1 1 • ]
    // 3 [ • • • ]
    assert_eq!(step_result, StepResult::Phew);
    assert_eq!(
        minefield.spot(step_x, step_y).unwrap().state(),
        SpotState::Revealed
    );
    for (nx, ny) in minefield.neighbors_coords(step_x, step_y) {
        assert_eq!(minefield.spot(nx, ny).unwrap().state(), SpotState::Revealed);
    }

    // Step on mine
    let step_x = 2;
    let step_y = 0;
    let step_result = minefield.step(step_x, step_y);

    // Step was Boom, and only mine spot was newly revealed
    //     0 1 2
    // 0 [   1 ☢ ]
    // 1 [   1 • ]
    // 2 [ 1 1 • ]
    // 3 [ • • • ]
    assert_eq!(step_result, StepResult::Boom);
    assert_eq!(
        minefield.spot(step_x, step_y).unwrap().state(),
        SpotState::Exploded
    );
    for (x, y) in minefield.neighbors_coords(step_x, step_y) {
        let expected_spot_state = if (x, y) == (2, 1) {
            SpotState::Hidden
        } else {
            SpotState::Revealed
        };
        assert_eq!(minefield.spot(x, y).unwrap().state(), expected_spot_state);
    }
}

#[test]
fn flood_reveal() {
    // Create empty bigger minefield
    //     0 1 2 3 4 5 6 7 8 9
    // 0 [     1 ☢ 1           ]
    // 1 [     1 1 1           ]
    // 2 [           1 1 1     ]
    // 3 [   1 1 1   1 ☢ 1 1 1 ]
    // 4 [   1 ☢ 1   1 1 1 1 ☢ ]
    // 5 [   1 1 1         1 1 ]
    // 6 [         1 1 2 1 1   ]
    // 7 [         1 ☢ 2 ☢ 1   ]
    // 8 [         1 1 2 1 1   ]
    // 9 [                     ]
    let width = 10;
    let height = 10;
    let mut minefield = Minefield::new(width, height);

    let mine_coords = [(2, 4), (5, 7), (7, 7), (9, 4), (6, 3), (3, 0)];
    for (x, y) in mine_coords {
        minefield.place_mine(x, y);
    }

    // Place a flag
    //     0 1 2 3 4 5 6 7 8 9
    // 0 [ • • • • • • • • • • ]
    // 1 [ • • • • • ⚐ • • • • ]
    // 2 [ • • • • • • • • • • ]
    // 3 [ • • • • • • • • • • ]
    // 4 [ • • • • • • • • • • ]
    // 5 [ • • • • • • • • • • ]
    // 6 [ • • • • • • • • • • ]
    // 7 [ • • • • • • • • • • ]
    // 8 [ • • • • • • • • • • ]
    // 9 [ • • • • • • • • • • ]
    let flag_x = 5;
    let flag_y = 1;
    assert_eq!(minefield.toggle_flag(flag_x, flag_y), FlagToggleResult::Added);

    // Step on spot (x=9, y=6)
    //     0 1 2 3 4 5 6 7 8 9
    // 0 [     1 • • • • • • • ]
    // 1 [     1 1 1 ⚐ • • • • ]
    // 2 [           1 • • • • ]
    // 3 [   1 1 1   1 • • • • ]
    // 4 [   1 • 1   1 1 1 1 • ]
    // 5 [   1 1 1         1 1 ]
    // 6 [         1 1 2 1 1   ]
    // 7 [         1 • • • 1   ]
    // 8 [         1 1 2 1 1   ]
    // 9 [                     ]
    let step_x = 9;
    let step_y = 6;
    let step_result = minefield.step(step_x, step_y);
    assert_eq!(step_result, StepResult::Phew);

    // All mines are still hidden
    for (x, y) in mine_coords {
        assert_eq!(minefield.spot(x, y).unwrap().state(), SpotState::Hidden);
    }

    // Flood revealed the entire maze
    assert_eq!(minefield.spot(7, 5).unwrap().state(), SpotState::Revealed);

    // Flag is still there
    assert_eq!(
        minefield.spot(flag_x, flag_y).unwrap().state(),
        SpotState::Flagged
    );

    // Insulated portion of field is still hidden
    assert_eq!(minefield.spot(9, 0).unwrap().state(), SpotState::Hidden);
    assert_eq!(minefield.spot(7, 1).unwrap().state(), SpotState::Hidden);
}

#[test]
fn new_clamps_zero_dimensions() {
    let minefield = Minefield::new(0, 0);
    assert_eq!(minefield.width(), 1);
    assert_eq!(minefield.height(), 1);
    assert!(minefield.spot(0, 0).is_some());
    assert!(minefield.spot(1, 0).is_none());
    assert!(minefield.spot(0, 1).is_none());
    assert_eq!(minefield.mines(), 0);
}

#[test]
fn with_mines_places_exact_count() {
    let minefield = Minefield::new(3, 4).with_mines(5);
    assert_eq!(minefield.mines(), 5);
    assert_eq!(count_mines(&minefield), 5);

    // every spot is still hidden after placement
    for x in 0..3 {
        for y in 0..4 {
            assert_eq!(minefield.spot(x, y).unwrap().state(), SpotState::Hidden);
        }
    }
}

#[test]
fn with_mines_caps_at_spot_count() {
    let minefield = Minefield::new(3, 4).with_mines(200);
    assert_eq!(minefield.mines(), 12);
    assert_eq!(count_mines(&minefield), 12);

    let empty = Minefield::new(4, 4).with_mines(0);
    assert_eq!(empty.mines(), 0);
    assert_eq!(count_mines(&empty), 0);
}

#[test]
fn step_out_of_bounds_is_invalid() {
    let mut minefield = Minefield::new(3, 4);
    assert_eq!(minefield.step(3, 0), StepResult::Invalid);
    assert_eq!(minefield.step(0, 4), StepResult::Invalid);
    assert_eq!(minefield.step(500, 500), StepResult::Invalid);
    // nothing was revealed by the rejected steps
    for x in 0..3 {
        for y in 0..4 {
            assert_eq!(minefield.spot(x, y).unwrap().state(), SpotState::Hidden);
        }
    }
}

#[test]
fn step_on_flagged_mine_explodes() {
    // flags guard only against auto_step: a direct step still detonates
    let mut minefield = Minefield::new(3, 4);
    minefield.place_mine(2, 0);
    assert_eq!(minefield.toggle_flag(2, 0), FlagToggleResult::Added);
    assert_eq!(minefield.step(2, 0), StepResult::Boom);
    assert_eq!(minefield.spot(2, 0).unwrap().state(), SpotState::Exploded);
}

#[test]
fn toggle_flag_transitions() {
    let mut minefield = Minefield::new(3, 4);
    minefield.place_mine(2, 0);

    // Hidden -> Flagged -> Hidden
    assert_eq!(minefield.toggle_flag(0, 0), FlagToggleResult::Added);
    assert_eq!(minefield.spot(0, 0).unwrap().state(), SpotState::Flagged);
    assert_eq!(minefield.toggle_flag(0, 0), FlagToggleResult::Removed);
    assert_eq!(minefield.spot(0, 0).unwrap().state(), SpotState::Hidden);

    // a revealed spot cannot be flagged
    assert_eq!(minefield.step(1, 1), StepResult::Phew);
    assert_eq!(minefield.toggle_flag(1, 1), FlagToggleResult::NoChange);
    assert_eq!(minefield.spot(1, 1).unwrap().state(), SpotState::Revealed);

    // an exploded spot cannot be flagged
    assert_eq!(minefield.step(2, 0), StepResult::Boom);
    assert_eq!(minefield.toggle_flag(2, 0), FlagToggleResult::NoChange);
    assert_eq!(minefield.spot(2, 0).unwrap().state(), SpotState::Exploded);

    // out-of-bounds coordinates change nothing
    assert_eq!(minefield.toggle_flag(3, 0), FlagToggleResult::NoChange);
    assert_eq!(minefield.toggle_flag(0, 4), FlagToggleResult::NoChange);
}

#[test]
fn auto_step_rejects_invalid_targets() {
    let mut minefield = Minefield::new(3, 4);
    minefield.place_mine(2, 0);

    // out of bounds
    assert_eq!(minefield.auto_step(3, 0), StepResult::Invalid);
    // a mine cell is no chord target
    assert_eq!(minefield.auto_step(2, 0), StepResult::Invalid);
}

#[test]
fn auto_step_noop_when_flags_mismatch() {
    let mut minefield = Minefield::new(3, 4);
    minefield.place_mine(2, 0);

    // reveal the count-1 spot next to the mine; no flag placed yet
    assert_eq!(minefield.step(1, 1), StepResult::Phew);
    assert_eq!(minefield.auto_step(1, 1), StepResult::Phew);
    for (nx, ny) in minefield.neighbors_coords(1, 1) {
        assert_eq!(minefield.spot(nx, ny).unwrap().state(), SpotState::Hidden);
    }

    // a hidden spot is no chord target either: no-op
    assert_eq!(minefield.auto_step(0, 0), StepResult::Phew);
    assert_eq!(minefield.spot(0, 0).unwrap().state(), SpotState::Hidden);
}

#[test]
fn auto_step_reveals_neighbors_when_flags_match() {
    let mut minefield = Minefield::new(3, 4);
    minefield.place_mine(2, 0);

    assert_eq!(minefield.step(1, 1), StepResult::Phew);
    assert_eq!(minefield.toggle_flag(2, 0), FlagToggleResult::Added);

    // one flag around a count-1 revealed spot: chord reveals the rest
    assert_eq!(minefield.auto_step(1, 1), StepResult::Phew);
    for (nx, ny) in minefield.neighbors_coords(1, 1) {
        if (nx, ny) == (2, 0) {
            assert_eq!(minefield.spot(nx, ny).unwrap().state(), SpotState::Flagged);
        } else {
            assert_eq!(minefield.spot(nx, ny).unwrap().state(), SpotState::Revealed);
        }
    }
}

#[test]
fn auto_step_explodes_on_wrongly_flagged_neighbor() {
    let mut minefield = Minefield::new(3, 4);
    minefield.place_mine(2, 0);

    assert_eq!(minefield.step(1, 1), StepResult::Phew);
    // flag the wrong neighbor: the count matches but the mine is hidden
    assert_eq!(minefield.toggle_flag(1, 0), FlagToggleResult::Added);
    assert_eq!(minefield.auto_step(1, 1), StepResult::Boom);
    assert_eq!(minefield.spot(2, 0).unwrap().state(), SpotState::Exploded);
    // the wrongly flagged spot was skipped
    assert_eq!(minefield.spot(1, 0).unwrap().state(), SpotState::Flagged);
}

#[test]
fn is_cleared_needs_flags_and_reveals() {
    let mut minefield = Minefield::new(2, 1);
    minefield.place_mine(0, 0);

    assert!(!minefield.is_cleared());

    // revealing every safe spot is not enough: the mine must be flagged
    assert_eq!(minefield.step(1, 0), StepResult::Phew);
    assert!(!minefield.is_cleared());

    assert_eq!(minefield.toggle_flag(0, 0), FlagToggleResult::Added);
    assert!(minefield.is_cleared());

    // removing the flag loses the cleared state again
    assert_eq!(minefield.toggle_flag(0, 0), FlagToggleResult::Removed);
    assert!(!minefield.is_cleared());
}

#[test]
fn is_cleared_without_mines() {
    let mut minefield = Minefield::new(2, 2);
    assert!(!minefield.is_cleared());
    assert_eq!(minefield.step(0, 0), StepResult::Phew);
    // the zero-count flood revealed the whole field
    assert!(minefield.is_cleared());
}

#[test]
fn single_mine_neighbor_counts() {
    // a 3x4 field with a single mine at (2, 0): exactly the three cells
    // around the corner mine count one neighboring mine
    let mut minefield = Minefield::new(3, 4);
    minefield.place_mine(2, 0);

    for x in 0..3 {
        for y in 0..4 {
            let kind = minefield.spot(x, y).unwrap().kind();
            if (x, y) == (2, 0) {
                assert_eq!(kind, SpotKind::Mine);
            } else if (x, y) == (1, 0) || (x, y) == (1, 1) || (x, y) == (2, 1) {
                assert_eq!(kind, SpotKind::Empty(1));
            } else {
                assert_eq!(kind, SpotKind::Empty(0));
            }
        }
    }
}

#[test]
fn neighbors_at_edges_and_corners() {
    let minefield = Minefield::new(3, 4);

    // a corner has three neighbors
    let corner = minefield.neighbors_coords(0, 0);
    assert_eq!(corner, vec![(0, 1), (1, 0), (1, 1)]);

    // an edge spot has five
    let edge = minefield.neighbors_coords(0, 1);
    assert_eq!(edge, vec![(0, 0), (0, 2), (1, 0), (1, 1), (1, 2)]);

    // an inner spot has eight, ordered by x then y
    let inner = minefield.neighbors_coords(1, 1);
    assert_eq!(
        inner,
        vec![
            (0, 0),
            (0, 1),
            (0, 2),
            (1, 0),
            (1, 2),
            (2, 0),
            (2, 1),
            (2, 2)
        ]
    );

    // neighbors never wrap around the grid
    let far = minefield.neighbors_coords(500, 500);
    assert!(far.is_empty());
}

#[test]
fn spots_enumerates_the_grid() {
    let mut minefield = Minefield::new(3, 4);
    minefield.place_mine(2, 0);
    let spots = minefield.spots();
    assert_eq!(spots.len(), 12);
    for y in 0..4u16 {
        for x in 0..3u16 {
            let (coords, spot) = spots[(y * 3 + x) as usize];
            assert_eq!(coords, (x, y));
            assert_eq!(spot.kind(), minefield.spot(x, y).unwrap().kind());
            assert_eq!(spot.state(), SpotState::Hidden);
        }
    }
}
