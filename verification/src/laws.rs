use vstd::prelude::*;
use crate::board::{bomb_pred, flag_step, open_step, surrounds_consistent, toggled, total_bombs,
    Minesweeper};
use crate::counting::lemma_grid_count_zero;

verus! {

/// Toggling the marker of one cell twice leaves every cell and the play
/// status exactly as they were.
pub proof fn lemma_flag_twice_restores(
    b1: Minesweeper,
    b2: Minesweeper,
    b3: Minesweeper,
    x: int,
    y: int,
)
    requires
        b1.wf(),
        b1.in_bounds(x, y),
        flag_step(b1, b2, x, y),
        flag_step(b2, b3, x, y),
    ensures
        b3.playing == b1.playing,
        b3.width == b1.width,
        b3.height == b1.height,
        b3.grid@.len() == b1.grid@.len(),
        forall|j: int| #![auto] 0 <= j < b1.grid@.len() ==> b3.grid@[j].len() == b1.grid@[j].len(),
        forall|i: int, j: int|
            #![auto]
            0 <= j < b1.grid@.len() && 0 <= i < b1.grid@[j].len() ==> b3.grid@[j][i]
                == b1.grid@[j][i],
{
    if b1.playing {
        assert(toggled(toggled(b1.cell(x, y))) == b1.cell(x, y));
        assert(b2.cell(x, y) == toggled(b1.cell(x, y)));
    }
}

/// Once play has ended, `open` and `flag` steps change nothing: both
/// terminal states absorb every further call.
pub proof fn lemma_terminal_absorbing(pre: Minesweeper, post: Minesweeper, x: int, y: int)
    requires
        !pre.playing,
        open_step(pre, post, x, y) || flag_step(pre, post, x, y),
    ensures
        post == pre,
{
}

/// On a board without mines, no `open` step ever ends play: loss needs a
/// mine.
pub proof fn lemma_no_mines_no_loss(pre: Minesweeper, post: Minesweeper, x: int, y: int)
    requires
        pre.wf(),
        pre.in_bounds(x, y),
        total_bombs(pre.grid@) == 0,
        open_step(pre, post, x, y),
    ensures
        post.playing == pre.playing,
{
    lemma_grid_count_zero(pre.grid@, bomb_pred());
    assert(!bomb_pred()(pre.grid@[y][x]));
    assert(!pre.grid@[y][x].bomb);
}

/// `open` and `flag` steps never move a mine and never change a neighbor
/// count: the construction invariants hold for the board's whole lifetime.
pub proof fn lemma_step_preserves_mines(pre: Minesweeper, post: Minesweeper, x: int, y: int)
    requires
        pre.wf(),
        pre.in_bounds(x, y),
        open_step(pre, post, x, y) || flag_step(pre, post, x, y),
    ensures
        total_bombs(post.grid@) == total_bombs(pre.grid@),
        surrounds_consistent(pre.grid@) ==> surrounds_consistent(post.grid@),
{
    let g1 = pre.grid@;
    let g2 = post.grid@;
    if g1 == g2 {
    } else {
        assert(g2.len() == g1.len());
        assert forall|i: int, j: int|
            #![trigger g2[j][i]]
            #![trigger g1[j][i]]
            0 <= j < g1.len() && 0 <= i < g1[j].len() implies g2[j][i].bomb == g1[j][i].bomb
            && g2[j][i].surrounds == g1[j][i].surrounds by {}
        let fb = bomb_pred();
        assert forall|i: int, j: int|
            #![auto]
            0 <= j < g1.len() && 0 <= i < g1[j].len() implies fb(g1[j][i]) == fb(g2[j][i]) by {
            assert(g2[j][i].bomb == g1[j][i].bomb);
        }
        crate::counting::lemma_grid_count_congruence(g1, g2, fb);
        if surrounds_consistent(g1) {
            assert forall|i: int, j: int|
                0 <= j < g2.len() && 0 <= i < g2[j].len() implies (#[trigger] g2[j][i]).surrounds
                == crate::board::neighbor_mines(g2, i, j) by {
                crate::board::lemma_neighbor_mines_same(g1, g2, i, j);
            }
        }
    }
}

} // verus!
