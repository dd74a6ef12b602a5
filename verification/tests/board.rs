use minesweeper::{BoardError, Cell, Minesweeper};

fn hidden(surrounds: u8, bomb: bool) -> Cell {
    Cell { surrounds, bomb, flag: false, revealed: false }
}

fn count_bombs(b: &Minesweeper) -> usize {
    b.grid.iter().flatten().filter(|c| c.bomb).count()
}

fn count_revealed_safe(b: &Minesweeper) -> usize {
    b.grid.iter().flatten().filter(|c| c.revealed && !c.bomb).count()
}

fn neighbor_bombs(b: &Minesweeper, x: usize, y: usize) -> u8 {
    let mut n = 0u8;
    for dy in -1i64..=1 {
        for dx in -1i64..=1 {
            if dx == 0 && dy == 0 {
                continue;
            }
            let nx = x as i64 + dx;
            let ny = y as i64 + dy;
            if nx >= 0 && ny >= 0 && (nx as usize) < b.width && (ny as usize) < b.height {
                if b.grid[ny as usize][nx as usize].bomb {
                    n += 1;
                }
            }
        }
    }
    n
}

#[test]
fn construction_places_exact_mine_count() {
    let b = Minesweeper::new(8, 8, 10).unwrap();
    assert_eq!(count_bombs(&b), 10);
    assert!(b.playing);
    assert_eq!(b.width, 8);
    assert_eq!(b.height, 8);
    assert_eq!(b.grid.len(), 8);
    for row in &b.grid {
        assert_eq!(row.len(), 8);
        for c in row {
            assert!(!c.revealed);
            assert!(!c.flag);
        }
    }
}

#[test]
fn construction_surrounds_are_true_neighbor_counts() {
    let b = Minesweeper::new(6, 5, 7).unwrap();
    for y in 0..5 {
        for x in 0..6 {
            assert_eq!(b.grid[y][x].surrounds, neighbor_bombs(&b, x, y));
        }
    }
}

#[test]
fn construction_rejects_zero_dimension() {
    assert!(matches!(Minesweeper::new(0, 5, 0), Err(BoardError::ZeroDimension)));
    assert!(matches!(Minesweeper::new(5, 0, 1), Err(BoardError::ZeroDimension)));
}

#[test]
fn construction_rejects_full_or_overfull_grid() {
    assert!(matches!(Minesweeper::new(3, 3, 9), Err(BoardError::TooManyMines)));
    assert!(matches!(Minesweeper::new(3, 3, 12), Err(BoardError::TooManyMines)));
}

#[test]
fn zero_mines_board_never_loses() {
    let mut b = Minesweeper::new(4, 4, 0).unwrap();
    b.open(0, 0).unwrap();
    assert!(b.playing);
    assert_eq!(count_revealed_safe(&b), 16);
}

#[test]
fn open_mine_loses_and_reveals_only_that_cell() {
    let grid = vec![
        vec![hidden(0, true), hidden(1, false), hidden(0, false)],
        vec![hidden(1, false), hidden(1, false), hidden(0, false)],
    ];
    let mut b = Minesweeper { playing: true, grid, width: 3, height: 2 };
    b.open(0, 0).unwrap();
    assert!(!b.playing);
    assert!(b.grid[0][0].revealed);
    for y in 0..2 {
        for x in 0..3 {
            if !(x == 0 && y == 0) {
                assert!(!b.grid[y][x].revealed);
            }
        }
    }
}

#[test]
fn open_flagged_cell_is_a_no_op() {
    let mut b = Minesweeper::new(3, 3, 1).unwrap();
    b.flag(1, 1).unwrap();
    let before: Vec<Vec<Cell>> = b.grid.clone();
    let playing_before = b.playing;
    b.open(1, 1).unwrap();
    assert_eq!(b.playing, playing_before);
    for y in 0..3 {
        for x in 0..3 {
            assert_eq!(b.grid[y][x], before[y][x]);
        }
    }
}

#[test]
fn flood_reveals_zero_region_and_numbered_border() {
    // One mine in the far corner; its three neighbors are numbered, the rest
    // of the board is one connected zero region.
    let mut grid = vec![vec![hidden(0, false); 4]; 4];
    grid[3][3] = hidden(0, true);
    grid[2][2] = hidden(1, false);
    grid[2][3] = hidden(1, false);
    grid[3][2] = hidden(1, false);
    let mut b = Minesweeper { playing: true, grid, width: 4, height: 4 };
    b.open(0, 0).unwrap();
    assert!(b.playing);
    for y in 0..4 {
        for x in 0..4 {
            if x == 3 && y == 3 {
                assert!(!b.grid[y][x].revealed, "the mine stays hidden");
            } else {
                assert!(b.grid[y][x].revealed, "({}, {}) should be revealed", x, y);
            }
        }
    }
}

#[test]
fn numbered_cell_opens_alone() {
    let mut grid = vec![vec![hidden(0, false); 4]; 4];
    grid[3][3] = hidden(0, true);
    grid[2][2] = hidden(1, false);
    grid[2][3] = hidden(1, false);
    grid[3][2] = hidden(1, false);
    let mut b = Minesweeper { playing: true, grid, width: 4, height: 4 };
    b.open(2, 2).unwrap();
    assert!(b.playing);
    for y in 0..4 {
        for x in 0..4 {
            assert_eq!(b.grid[y][x].revealed, x == 2 && y == 2);
        }
    }
}

#[test]
fn flag_toggles_and_double_toggle_restores() {
    let mut b = Minesweeper::new(3, 3, 2).unwrap();
    let before: Vec<Vec<Cell>> = b.grid.clone();
    b.flag(2, 1).unwrap();
    assert!(b.grid[1][2].flag);
    assert!(b.playing);
    b.flag(2, 1).unwrap();
    for y in 0..3 {
        for x in 0..3 {
            assert_eq!(b.grid[y][x], before[y][x]);
        }
    }
}

#[test]
fn out_of_bounds_coordinates_are_rejected() {
    let mut b = Minesweeper::new(3, 3, 1).unwrap();
    let before: Vec<Vec<Cell>> = b.grid.clone();
    assert_eq!(b.open(3, 0).unwrap_err(), BoardError::OutOfBounds);
    assert_eq!(b.open(0, 7).unwrap_err(), BoardError::OutOfBounds);
    assert_eq!(b.flag(9, 9).unwrap_err(), BoardError::OutOfBounds);
    assert!(b.playing);
    for y in 0..3 {
        for x in 0..3 {
            assert_eq!(b.grid[y][x], before[y][x]);
        }
    }
}

#[test]
fn terminal_state_absorbs_every_call() {
    let grid = vec![vec![hidden(0, true), hidden(1, false)]];
    let mut b = Minesweeper { playing: true, grid, width: 2, height: 1 };
    b.open(0, 0).unwrap();
    assert!(!b.playing);
    let after_loss: Vec<Vec<Cell>> = b.grid.clone();
    b.open(1, 0).unwrap();
    b.flag(1, 0).unwrap();
    b.flag(0, 0).unwrap();
    assert!(!b.playing);
    for x in 0..2 {
        assert_eq!(b.grid[0][x], after_loss[0][x]);
    }
}

#[test]
fn win_count_fires_exactly_once_on_full_clear() {
    let mut b = Minesweeper::new(8, 8, 10).unwrap();
    let mut signals = 0;
    let mut signaled = false;
    for y in 0..8 {
        for x in 0..8 {
            if !signaled && !b.grid[y][x].bomb {
                b.open(x, y).unwrap();
                assert!(b.playing);
                let revealed = count_revealed_safe(&b);
                if 64 - revealed == 10 {
                    signaled = true;
                    signals += 1;
                    b.playing = false;
                }
            }
        }
    }
    assert_eq!(count_revealed_safe(&b), 54);
    assert_eq!(signals, 1);
    assert!(!b.playing);
}
