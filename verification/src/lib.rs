use vstd::prelude::*;

mod board;
mod counting;
mod laws;
mod region;
mod rng;

pub use board::{adj_indicator, bomb_pred, flag_step, flood_result, fresh_cell, mine_at,
    neighbor_mines, only_cell_changed, open_step, opened, revealed_safe_pred,
    surrounds_consistent, toggled, total_bombs, total_revealed_safe, unvisited_count,
    unvisited_pred};
pub use board::{BoardError, Cell, Minesweeper};
pub use counting::{grid_count, lemma_grid_count_congruence, lemma_grid_count_update,
    lemma_grid_count_zero, row_count};
pub use laws::{lemma_flag_twice_restores, lemma_no_mines_no_loss, lemma_step_preserves_mines,
    lemma_terminal_absorbing};
pub use region::{adjacent, in_closure, in_region, is_zero_path, neighbors_done, zero_cell};

verus! {

} // verus!
