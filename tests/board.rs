use game_of_life::{Board, BoardError};

fn grid(b: &Board) -> Vec<Vec<bool>> {
    let mut out = Vec::new();
    for r in 0..b.n_rows() {
        let mut row = Vec::new();
        for c in 0..b.n_cols() {
            row.push(b.is_alive(r, c));
        }
        out.push(row);
    }
    out
}

fn board_with(nrows: usize, ncols: usize, live: &[(usize, usize)]) -> Board {
    let mut b = Board::new(nrows, ncols).unwrap();
    for &(r, c) in live {
        b.turn_on(r, c);
    }
    b
}

fn live_cells(b: &Board) -> Vec<(usize, usize)> {
    let mut out = Vec::new();
    for r in 0..b.n_rows() {
        for c in 0..b.n_cols() {
            if b.is_alive(r, c) {
                out.push((r, c));
            }
        }
    }
    out
}

#[test]
fn new_rejects_zero_rows() {
    assert!(matches!(Board::new(0, 5), Err(BoardError::ZeroDimension)));
}

#[test]
fn new_rejects_zero_cols() {
    assert!(matches!(Board::new(5, 0), Err(BoardError::ZeroDimension)));
}

#[test]
fn new_gives_all_dead_grid() {
    let b = Board::new(5, 5).unwrap();
    assert_eq!(b.n_rows(), 5);
    assert_eq!(b.n_cols(), 5);
    assert_eq!(grid(&b), vec![vec![false; 5]; 5]);
}

#[test]
fn dimensions_of_non_square_grid() {
    let b = Board::new(3, 7).unwrap();
    assert_eq!(b.n_rows(), 3);
    assert_eq!(b.n_cols(), 7);
}

#[test]
fn turn_on_and_off_touch_one_cell() {
    let mut b = Board::new(3, 4).unwrap();
    b.turn_on(1, 2);
    assert_eq!(live_cells(&b), vec![(1, 2)]);
    b.turn_on(1, 2);
    assert_eq!(live_cells(&b), vec![(1, 2)]);
    b.turn_on(2, 3);
    b.turn_off(1, 2);
    assert_eq!(live_cells(&b), vec![(2, 3)]);
    b.turn_off(0, 0);
    assert_eq!(live_cells(&b), vec![(2, 3)]);
}

#[test]
fn neighbors_inside_the_grid() {
    let b = board_with(5, 5, &[(1, 1), (1, 2), (2, 3), (3, 3), (2, 2)]);
    assert_eq!(b.n_neighbors(2, 2), 4);
    assert_eq!(b.n_neighbors(1, 1), 2);
    assert_eq!(b.n_neighbors(0, 0), 1);
    assert_eq!(b.n_neighbors(4, 4), 1);
}

#[test]
fn neighbors_wrap_round_corners() {
    let b = board_with(4, 5, &[(3, 4)]);
    assert_eq!(b.n_neighbors(0, 0), 1);
    assert_eq!(b.n_neighbors(0, 3), 1);
    assert_eq!(b.n_neighbors(2, 0), 1);
    assert_eq!(b.n_neighbors(1, 1), 0);
    assert_eq!(b.n_neighbors(3, 4), 0);
}

#[test]
fn neighbors_all_alive_is_eight() {
    let mut b = Board::new(3, 3).unwrap();
    for r in 0..3 {
        for c in 0..3 {
            b.turn_on(r, c);
        }
    }
    for r in 0..3 {
        for c in 0..3 {
            assert_eq!(b.n_neighbors(r, c), 8);
        }
    }
}

#[test]
fn neighbors_every_cell_of_every_small_grid() {
    for nr in 1..5 {
        for nc in 1..5 {
            let b = board_with(nr, nc, &[(0, 0)]);
            for r in 0..nr {
                for c in 0..nc {
                    assert!(b.n_neighbors(r, c) <= 8);
                }
            }
        }
    }
}

#[test]
fn birth_with_three_neighbours() {
    let mut b = board_with(6, 6, &[(1, 1), (1, 2), (1, 3)]);
    assert!(!b.is_alive(2, 2));
    assert_eq!(b.n_neighbors(2, 2), 3);
    b.step();
    assert!(b.is_alive(2, 2));
}

#[test]
fn survival_and_death_counts() {
    // centre of a plus: four live neighbours, dies of overcrowding
    let mut b = board_with(7, 7, &[(3, 3), (2, 3), (4, 3), (3, 2), (3, 4)]);
    b.step();
    assert!(!b.is_alive(3, 3));
    // lone cell dies of isolation
    let mut b = board_with(5, 5, &[(2, 2)]);
    b.step();
    assert_eq!(live_cells(&b), vec![]);
    // two neighbours: a live cell survives, a dead one stays dead
    let mut b = board_with(6, 6, &[(2, 1), (2, 2), (2, 3)]);
    b.step();
    assert!(b.is_alive(2, 2));
}

#[test]
fn single_cell_grid_alive_dies() {
    let mut b = board_with(1, 1, &[(0, 0)]);
    assert_eq!(b.n_neighbors(0, 0), 8);
    b.step();
    assert!(!b.is_alive(0, 0));
}

#[test]
fn single_cell_grid_dead_stays_dead() {
    let mut b = Board::new(1, 1).unwrap();
    assert_eq!(b.n_neighbors(0, 0), 0);
    b.step();
    assert!(!b.is_alive(0, 0));
    b.step();
    assert!(!b.is_alive(0, 0));
}

#[test]
fn block_is_still_life() {
    let live = [(2, 2), (2, 3), (3, 2), (3, 3)];
    let mut b = board_with(6, 6, &live);
    let start = grid(&b);
    for _ in 0..10 {
        b.step();
        assert_eq!(grid(&b), start);
    }
}

#[test]
fn block_across_the_edge_is_still_life() {
    let mut b = board_with(5, 4, &[(4, 3), (4, 0), (0, 3), (0, 0)]);
    let start = grid(&b);
    for _ in 0..5 {
        b.step();
        assert_eq!(grid(&b), start);
    }
}

#[test]
fn blinker_oscillates() {
    let mut b = board_with(5, 5, &[(2, 1), (2, 2), (2, 3)]);
    let horizontal = grid(&b);
    b.step();
    assert_eq!(live_cells(&b), vec![(1, 2), (2, 2), (3, 2)]);
    assert_ne!(grid(&b), horizontal);
    b.step();
    assert_eq!(grid(&b), horizontal);
    b.step();
    assert_eq!(live_cells(&b), vec![(1, 2), (2, 2), (3, 2)]);
}

#[test]
fn blinker_on_smallest_torus() {
    let mut b = board_with(4, 4, &[(0, 3), (0, 0), (0, 1)]);
    let horizontal = grid(&b);
    b.step();
    assert_eq!(live_cells(&b), vec![(0, 0), (1, 0), (3, 0)]);
    b.step();
    assert_eq!(grid(&b), horizontal);
}

#[test]
fn pattern_two_by_two() {
    let b = Board::from_pattern("##\n.#", '#').unwrap();
    assert_eq!(b.n_rows(), 2);
    assert_eq!(b.n_cols(), 2);
    assert!(b.is_alive(0, 0));
    assert!(b.is_alive(0, 1));
    assert!(!b.is_alive(1, 0));
    assert!(b.is_alive(1, 1));
}

#[test]
fn pattern_ragged_rows() {
    assert!(matches!(Board::from_pattern("##\n.#.", '#'), Err(BoardError::RaggedRows)));
}

#[test]
fn pattern_other_alive_char() {
    let b = Board::from_pattern("o.o\n.o.", 'o').unwrap();
    assert_eq!(grid(&b), vec![vec![true, false, true], vec![false, true, false]]);
}

#[test]
fn pattern_empty_is_zero_dimension() {
    assert!(matches!(Board::from_pattern("", '#'), Err(BoardError::ZeroDimension)));
    assert!(matches!(Board::from_pattern("\n", '#'), Err(BoardError::ZeroDimension)));
}

#[test]
fn pattern_trailing_newline_is_an_empty_row() {
    assert!(matches!(Board::from_pattern("##\n.#\n", '#'), Err(BoardError::RaggedRows)));
}

#[test]
fn text_is_trimmed_before_reading() {
    let b = Board::from_text("\n##\n.#\n\n", '#').unwrap();
    assert_eq!(grid(&b), vec![vec![true, true], vec![false, true]]);
    assert!(matches!(Board::from_text("  \n ", '#'), Err(BoardError::ZeroDimension)));
}

#[test]
fn render_glyphs() {
    let b = Board::from_pattern("#.\n.#", '#').unwrap();
    assert_eq!(b.render(), "\u{25fc}\u{25fb}\n\u{25fb}\u{25fc}\n");
}
