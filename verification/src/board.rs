use vstd::prelude::*;
use vstd::pervasive::VecAdditionalExecFns;
use crate::counting::{grid_count, lemma_grid_count_congruence, lemma_grid_count_update};
use crate::region::{adjacent, in_closure, in_region, neighbors_done, zero_cell};
use crate::region::{lemma_flood_complete, lemma_region_ends, lemma_region_start,
    lemma_region_step};
use crate::rng::random_below;

verus! {

/// One square of the grid. `surrounds` is the number of mines among the
/// up-to-8 neighbors, fixed at construction time.
#[derive(Clone, Copy, PartialEq, Eq, Structural, Debug)]
pub struct Cell {
    pub surrounds: u8,
    pub bomb: bool,
    pub flag: bool,
    pub revealed: bool,
}

impl Default for Cell {
    /// A fresh square: no mine, no marker, hidden, zero neighbor count.
    fn default() -> (c: Cell)
        ensures
            c.surrounds == 0,
            !c.bomb,
            !c.flag,
            !c.revealed,
    {
        Cell { surrounds: 0, bomb: false, flag: false, revealed: false }
    }
}

/// Why a request to the board was refused.
#[derive(Clone, Copy, PartialEq, Eq, Structural, Debug)]
pub enum BoardError {
    /// A dimension of zero was asked of the constructor.
    ZeroDimension,
    /// At least as many mines as cells were asked of the constructor.
    TooManyMines,
    /// A coordinate outside the grid was passed to an operation.
    OutOfBounds,
}

/// The whole game state: a row-major grid of cells and the play status.
/// The shape is fixed at construction; afterwards only `flag`, `revealed`
/// and `playing` ever change.
pub struct Minesweeper {
    pub playing: bool,
    pub grid: Vec<Vec<Cell>>,
    pub width: usize,
    pub height: usize,
}

/// The predicate that picks out mine cells, shared by every count of them.
pub open spec fn bomb_pred() -> spec_fn(Cell) -> bool {
    |c: Cell| c.bomb
}

/// The predicate that picks out opened safe cells: the win condition counts
/// these.
pub open spec fn revealed_safe_pred() -> spec_fn(Cell) -> bool {
    |c: Cell| c.revealed && !c.bomb
}

/// How many cells of `g` hold a mine.
pub open spec fn total_bombs(g: Seq<Vec<Cell>>) -> nat {
    grid_count(g, bomb_pred())
}

/// How many cells of `g` are revealed and safe.
pub open spec fn total_revealed_safe(g: Seq<Vec<Cell>>) -> nat {
    grid_count(g, revealed_safe_pred())
}

/// Every cell's `surrounds` equals the number of mines among its 8-neighbors,
/// clipped to the grid.
pub open spec fn surrounds_consistent(g: Seq<Vec<Cell>>) -> bool {
    forall|i: int, j: int|
        0 <= j < g.len() && 0 <= i < g[j].len() ==> (#[trigger] g[j][i]).surrounds
            == neighbor_mines(g, i, j)
}

/// 1 when `(x, y)` is an in-bounds mine, else 0.
#[verifier::opaque]
pub open spec fn mine_at(g: Seq<Vec<Cell>>, x: int, y: int) -> nat {
    if 0 <= y < g.len() && 0 <= x < g[y].len() && g[y][x].bomb {
        1
    } else {
        0
    }
}

/// The number of mines among the up-to-8 neighbors of `(x, y)`.
#[verifier::opaque]
pub open spec fn neighbor_mines(g: Seq<Vec<Cell>>, x: int, y: int) -> nat {
    mine_at(g, x - 1, y - 1) + mine_at(g, x, y - 1) + mine_at(g, x + 1, y - 1) + mine_at(
        g,
        x - 1,
        y,
    ) + mine_at(g, x + 1, y) + mine_at(g, x - 1, y + 1) + mine_at(g, x, y + 1) + mine_at(
        g,
        x + 1,
        y + 1,
    )
}

/// `c` with its marker flipped, all else kept.
pub open spec fn toggled(c: Cell) -> Cell {
    Cell { flag: !c.flag, ..c }
}

/// `c` opened, all else kept.
pub open spec fn opened(c: Cell) -> Cell {
    Cell { revealed: true, ..c }
}

/// `g2` is `g1` with the one cell `(x, y)` replaced by `c`: same shape, every
/// other cell untouched.
pub open spec fn only_cell_changed(
    g1: Seq<Vec<Cell>>,
    g2: Seq<Vec<Cell>>,
    x: int,
    y: int,
    c: Cell,
) -> bool {
    &&& g2.len() == g1.len()
    &&& (forall|j: int| #![auto] 0 <= j < g1.len() ==> g2[j].len() == g1[j].len())
    &&& (forall|i: int, j: int|
        #![auto]
        0 <= j < g1.len() && 0 <= i < g1[j].len() && !(i == x && j == y) ==> g2[j][i] == g1[j][i])
    &&& g2[y][x] == c
}

impl Minesweeper {
    /// The grid really is `height` rows of `width` cells.
    pub open spec fn wf(self) -> bool {
        &&& self.grid@.len() == self.height
        &&& forall|j: int| 0 <= j < self.height ==> (#[trigger] self.grid@[j]).len() == self.width
    }

    /// `(x, y)` names a cell of this board.
    pub open spec fn in_bounds(self, x: int, y: int) -> bool {
        0 <= x < self.width && 0 <= y < self.height
    }

    /// The cell at column `x`, row `y`.
    pub open spec fn cell(self, x: int, y: int) -> Cell {
        self.grid@[y][x]
    }
}

/// What one `flag` call does on an in-bounds coordinate: nothing once the
/// game is over, else exactly the marker of `(x, y)` flips.
pub open spec fn flag_step(pre: Minesweeper, post: Minesweeper, x: int, y: int) -> bool {
    if !pre.playing {
        post == pre
    } else {
        &&& post.playing == pre.playing
        &&& post.width == pre.width
        &&& post.height == pre.height
        &&& only_cell_changed(pre.grid@, post.grid@, x, y, toggled(pre.cell(x, y)))
    }
}

/// Replaces the one cell `(x, y)` of the grid.
fn set_cell(grid: &mut Vec<Vec<Cell>>, x: usize, y: usize, c: Cell)
    requires
        y < old(grid)@.len(),
        x < old(grid)@[y as int].len(),
    ensures
        final(grid)@.len() == old(grid)@.len(),
        forall|j: int| #![auto] 0 <= j < old(grid)@.len() && j != y ==> final(grid)@[j] == old(
            grid,
        )@[j],
        final(grid)@[y as int]@ == old(grid)@[y as int]@.update(x as int, c),
        only_cell_changed(old(grid)@, final(grid)@, x as int, y as int, c),
{
    let row = &mut grid[y];
    row.set(x, c);
}

/// A cell as construction first makes it.
pub open spec fn fresh_cell() -> Cell {
    Cell { surrounds: 0, bomb: false, flag: false, revealed: false }
}

/// 1 when `(x, y)` is 8-adjacent to `(mx, my)`, else 0.
pub open spec fn adj_indicator(mx: int, my: int, x: int, y: int) -> nat {
    if adjacent(mx, my, x, y) {
        1nat
    } else {
        0nat
    }
}

/// `height` rows of `width` fresh cells.
fn make_cell_grid(width: usize, height: usize) -> (g: Vec<Vec<Cell>>)
    ensures
        g@.len() == height,
        forall|j: int| 0 <= j < height ==> (#[trigger] g@[j]).len() == width,
        forall|i: int, j: int| #![auto] 0 <= j < height && 0 <= i < width ==> g@[j][i]
            == fresh_cell(),
{
    let mut g: Vec<Vec<Cell>> = Vec::new();
    for j in 0..height
        invariant
            g@.len() == j,
            forall|jj: int| 0 <= jj < j ==> (#[trigger] g@[jj]).len() == width,
            forall|i: int, jj: int| #![auto] 0 <= jj < j && 0 <= i < width ==> g@[jj][i]
                == fresh_cell(),
    {
        let mut row: Vec<Cell> = Vec::new();
        for i in 0..width
            invariant
                row@.len() == i,
                forall|ii: int| #![auto] 0 <= ii < i ==> row@[ii] == fresh_cell(),
        {
            row.push(Cell::default());
        }
        g.push(row);
    }
    g
}

/// Every coordinate of a `width` by `height` grid, each exactly once.
fn make_free_list(width: usize, height: usize) -> (free: Vec<(usize, usize)>)
    requires
        width * height <= usize::MAX,
    ensures
        free@.len() == width * height,
        forall|k: int, l: int| 0 <= k < l < free@.len() ==> free@[k] != free@[l],
        forall|a: usize, b: usize| #![auto] free@.contains((a, b)) <==> (a < width && b
            < height),
        forall|k: int| 0 <= k < free@.len() ==> (#[trigger] free@[k]).0 < width && free@[k].1
            < height,
{
    let mut free: Vec<(usize, usize)> = Vec::new();
    for b in 0..height
        invariant
            width * height <= usize::MAX,
            free@.len() == b * width,
            b * width <= width * height,
            forall|k: int, l: int| 0 <= k < l < free@.len() ==> free@[k] != free@[l],
            forall|p: usize, q: usize| #![auto] free@.contains((p, q)) <==> (p < width && q < b),
            forall|k: int| 0 <= k < free@.len() ==> (#[trigger] free@[k]).0 < width && free@[k].1
                < b,
    {
        proof {
            assert((b + 1) * width == b * width + width) by (nonlinear_arith);
            assert((b + 1) * width <= width * height) by (nonlinear_arith)
                requires b + 1 <= height, width >= 0;
        }
        for a in 0..width
            invariant
                width * height <= usize::MAX,
                b < height,
                free@.len() == b * width + a,
                b * width + width <= width * height,
                forall|k: int, l: int| 0 <= k < l < free@.len() ==> free@[k] != free@[l],
                forall|p: usize, q: usize| #![auto] free@.contains((p, q)) <==> (p < width && (q
                    < b || (q == b && p < a))),
                forall|k: int| 0 <= k < free@.len() ==> (#[trigger] free@[k]).0 < width
                    && free@[k].1 <= b,
        {
            let ghost prev = free@;
            free.push((a, b));
            proof {
                assert(free@[prev.len() as int] == (a, b));
                assert forall|p: usize, q: usize| #![auto] free@.contains((p, q)) <==> (p < width
                    && (q < b || (q == b && p < a + 1))) by {
                    if free@.contains((p, q)) {
                        let k = choose|k: int| 0 <= k < free@.len() && free@[k] == (p, q);
                        if k < prev.len() {
                            assert(prev[k] == (p, q));
                            assert(prev.contains((p, q)));
                        }
                    }
                    if p < width && (q < b || (q == b && p < a + 1)) {
                        if q < b || (q == b && p < a) {
                            assert(prev.contains((p, q)));
                            let k = choose|k: int| 0 <= k < prev.len() && prev[k] == (p, q);
                            assert(free@[k] == (p, q));
                        } else {
                            assert(free@[prev.len() as int] == (p, q));
                        }
                    }
                }
                assert forall|k: int, l: int| 0 <= k < l < free@.len() implies free@[k]
                    != free@[l] by {
                    if l == prev.len() {
                        if free@[k] == (a, b) {
                            assert(prev[k] == (a, b));
                            assert(prev.contains((a, b)));
                        }
                    }
                }
            }
        }
    }
    proof {
        assert(height * width == width * height) by (nonlinear_arith);
    }
    free
}

/// `c` with one more neighboring mine on record, all else kept.
pub open spec fn bumped(c: Cell) -> Cell {
    Cell { surrounds: (c.surrounds + 1) as u8, ..c }
}

/// Adds one to the `surrounds` of the cell `(x, y)`.
fn bump_surrounds(grid: &mut Vec<Vec<Cell>>, x: usize, y: usize)
    requires
        y < old(grid)@.len(),
        x < old(grid)@[y as int].len(),
        old(grid)@[y as int]@[x as int].surrounds < 255,
    ensures
        only_cell_changed(
            old(grid)@,
            final(grid)@,
            x as int,
            y as int,
            bumped(old(grid)@[y as int]@[x as int]),
        ),
{
    let c = grid[y][x];
    set_cell(grid, x, y, Cell { surrounds: c.surrounds + 1, ..c });
}

/// Adds one to the `surrounds` of every in-bounds 8-neighbor of `(mx, my)`,
/// and touches nothing else.
fn increment_neighbors(grid: &mut Vec<Vec<Cell>>, mx: usize, my: usize)
    requires
        my < old(grid)@.len(),
        mx < old(grid)@[my as int].len(),
        forall|j: int| 0 <= j < old(grid)@.len() ==> (#[trigger] old(grid)@[j]).len() == old(
            grid,
        )@[my as int].len(),
        forall|i: int, j: int|
            #![auto]
            0 <= j < old(grid)@.len() && 0 <= i < old(grid)@[j].len() ==> old(
                grid,
            )@[j][i].surrounds < 255,
    ensures
        final(grid)@.len() == old(grid)@.len(),
        forall|j: int| #![auto] 0 <= j < old(grid)@.len() ==> final(grid)@[j].len() == old(
            grid,
        )@[j].len(),
        forall|i: int, j: int|
            #![trigger final(grid)@[j][i]]
            #![trigger old(grid)@[j][i]]
            0 <= j < old(grid)@.len() && 0 <= i < old(grid)@[j].len() ==> final(grid)@[j][i].bomb
                == old(grid)@[j][i].bomb && final(grid)@[j][i].flag == old(grid)@[j][i].flag
                && final(grid)@[j][i].revealed == old(grid)@[j][i].revealed
                && final(grid)@[j][i].surrounds == old(grid)@[j][i].surrounds + adj_indicator(
                mx as int,
                my as int,
                i,
                j,
            ),
{
    let w = grid[my].len();
    let h = grid.len();
    if mx >= 1 && my >= 1 {
        bump_surrounds(grid, mx - 1, my - 1);
    }
    if my >= 1 {
        bump_surrounds(grid, mx, my - 1);
    }
    if mx + 1 < w && my >= 1 {
        bump_surrounds(grid, mx + 1, my - 1);
    }
    if mx >= 1 {
        bump_surrounds(grid, mx - 1, my);
    }
    if mx + 1 < w {
        bump_surrounds(grid, mx + 1, my);
    }
    if mx >= 1 && my + 1 < h {
        bump_surrounds(grid, mx - 1, my + 1);
    }
    if my + 1 < h {
        bump_surrounds(grid, mx, my + 1);
    }
    if mx + 1 < w && my + 1 < h {
        bump_surrounds(grid, mx + 1, my + 1);
    }
}

/// What `Vec::swap_remove` leaves of a duplicate-free sequence: one element
/// gone, the rest kept, still duplicate-free.
proof fn lemma_swap_remove_distinct<A>(s: Seq<A>, i: int)
    requires
        0 <= i < s.len(),
        forall|k: int, l: int| 0 <= k < l < s.len() ==> s[k] != s[l],
    ensures
        ({
            let t = s.update(i, s.last()).drop_last();
            &&& t.len() == s.len() - 1
            &&& (forall|k: int, l: int| 0 <= k < l < t.len() ==> t[k] != t[l])
            &&& (forall|q: A| #[trigger] t.contains(q) <==> (s.contains(q) && q != s[i]))
        }),
{
    let t = s.update(i, s.last()).drop_last();
    assert forall|k: int, l: int| 0 <= k < l < t.len() implies t[k] != t[l] by {
        if k == i {
            assert(t[k] == s[s.len() - 1]);
        }
        if l == i {
            assert(t[l] == s[s.len() - 1]);
        }
    }
    assert forall|q: A| #[trigger] t.contains(q) implies (s.contains(q) && q != s[i]) by {
        let k = choose|k: int| 0 <= k < t.len() && t[k] == q;
        if k == i {
            assert(s[s.len() - 1] == q);
        } else {
            assert(s[k] == q);
        }
    }
    assert forall|q: A| s.contains(q) && q != s[i] implies t.contains(q) by {
        let k = choose|k: int| 0 <= k < s.len() && s[k] == q;
        if k < s.len() - 1 {
            assert(t[k] == q);
        } else {
            assert(i < s.len() - 1);
            assert(t[i] == q);
        }
    }
}

impl Minesweeper {
    /// Builds a fresh board of `width` by `height` cells holding exactly
    /// `mine_count` mines, placed at random among distinct cells, every cell
    /// hidden and unmarked, every `surrounds` the true neighbor-mine count,
    /// and play open.
    ///
    /// Refused (and nothing built) when a dimension is zero or when the mines
    /// would fill or overflow the grid.
    #[verifier::rlimit(50)]
    pub fn new(width: usize, height: usize, mine_count: usize) -> (r: Result<
        Minesweeper,
        BoardError,
    >)
        requires
            width * height <= usize::MAX,
        ensures
            r is Ok <==> (width >= 1 && height >= 1 && mine_count < width * height),
            r is Err ==> r->Err_0 == (if width == 0 || height == 0 {
                BoardError::ZeroDimension
            } else {
                BoardError::TooManyMines
            }),
            r is Ok ==> r->Ok_0.wf(),
            r is Ok ==> r->Ok_0.width == width && r->Ok_0.height == height,
            r is Ok ==> r->Ok_0.playing,
            r is Ok ==> total_bombs(r->Ok_0.grid@) == mine_count,
            r is Ok ==> surrounds_consistent(r->Ok_0.grid@),
            r is Ok ==> forall|i: int, j: int|
                #![auto]
                0 <= j < height && 0 <= i < width ==> !r->Ok_0.grid@[j][i].flag
                    && !r->Ok_0.grid@[j][i].revealed,
    {
        if width == 0 || height == 0 {
            return Err(BoardError::ZeroDimension);
        }
        if mine_count >= width * height {
            return Err(BoardError::TooManyMines);
        }
        let mut grid = make_cell_grid(width, height);
        let mut free = make_free_list(width, height);
        let mut count: usize = 0;
        proof {
            lemma_all_fresh_counts(grid@, width as nat, height as nat);
        }
        while count < mine_count
            invariant
                width >= 1,
                height >= 1,
                mine_count < width * height,
                width * height <= usize::MAX,
                count <= mine_count,
                grid@.len() == height,
                forall|j: int| 0 <= j < height ==> (#[trigger] grid@[j]).len() == width,
                total_bombs(grid@) == count,
                surrounds_consistent(grid@),
                forall|i: int, j: int|
                    #![auto]
                    0 <= j < height && 0 <= i < width ==> !grid@[j][i].flag
                        && !grid@[j][i].revealed,
                free@.len() == width * height - count,
                forall|k: int, l: int| 0 <= k < l < free@.len() ==> free@[k] != free@[l],
                forall|k: int| 0 <= k < free@.len() ==> (#[trigger] free@[k]).0 < width
                    && free@[k].1 < height,
                forall|a: usize, b: usize|
                    #![auto]
                    a < width && b < height ==> (free@.contains((a, b))
                        <==> !grid@[b as int]@[a as int].bomb),
            decreases mine_count - count,
        {
            place_one_mine(&mut grid, &mut free, width, height);
            count = count + 1;
        }
        Ok(Minesweeper { playing: true, grid, width, height })
    }
}

/// A consistent grid keeps every `surrounds` at 8 or below: there are only
/// 8 neighbors to count.
proof fn lemma_consistent_surrounds_le(g: Seq<Vec<Cell>>)
    requires
        surrounds_consistent(g),
    ensures
        forall|i: int, j: int|
            0 <= j < g.len() && 0 <= i < g[j].len() ==> (#[trigger] g[j][i]).surrounds <= 8,
{
    assert forall|i: int, j: int|
        0 <= j < g.len() && 0 <= i < g[j].len() implies (#[trigger] g[j][i]).surrounds <= 8 by {
        reveal(mine_at);
        reveal(neighbor_mines);
        assert(g[j][i].surrounds == neighbor_mines(g, i, j));
        assert(mine_at(g, i - 1, j - 1) <= 1);
        assert(mine_at(g, i, j - 1) <= 1);
        assert(mine_at(g, i + 1, j - 1) <= 1);
        assert(mine_at(g, i - 1, j) <= 1);
        assert(mine_at(g, i + 1, j) <= 1);
        assert(mine_at(g, i - 1, j + 1) <= 1);
        assert(mine_at(g, i, j + 1) <= 1);
        assert(mine_at(g, i + 1, j + 1) <= 1);
    }
}

/// Placing one mine raises the mine total by one, through the cell update
/// and the bump step that follows it.
proof fn lemma_place_mine_counts(
    g0: Seq<Vec<Cell>>,
    g1: Seq<Vec<Cell>>,
    g2: Seq<Vec<Cell>>,
    mx: int,
    my: int,
)
    requires
        0 <= my < g0.len(),
        0 <= mx < g0[my].len(),
        !g0[my][mx].bomb,
        only_cell_changed(g0, g1, mx, my, (Cell { bomb: true, ..g0[my][mx] })),
        g2.len() == g1.len(),
        forall|j: int| #![auto] 0 <= j < g1.len() ==> g2[j].len() == g1[j].len(),
        forall|i: int, j: int|
            #![trigger g2[j][i]]
            #![trigger g1[j][i]]
            0 <= j < g1.len() && 0 <= i < g1[j].len() ==> g2[j][i].bomb == g1[j][i].bomb,
    ensures
        total_bombs(g2) == total_bombs(g0) + 1,
{
    let fb = bomb_pred();
    lemma_grid_count_update(g0, g1, fb, mx, my);
    assert(!fb(g0[my][mx]) && fb(g1[my][mx]));
    assert forall|i: int, j: int|
        #![auto]
        0 <= j < g1.len() && 0 <= i < g1[j].len() implies fb(g1[j][i]) == fb(g2[j][i]) by {
        assert(g2[j][i].bomb == g1[j][i].bomb);
    }
    lemma_grid_count_congruence(g1, g2, fb);
}

/// One `mine_at` term after the mine at `(mx, my)` is set: up by one there,
/// unmoved elsewhere.
proof fn lemma_mine_at_shift(g0: Seq<Vec<Cell>>, g1: Seq<Vec<Cell>>, mx: int, my: int, a: int, b: int)
    requires
        g1.len() == g0.len(),
        forall|j: int| #![auto] 0 <= j < g0.len() ==> g1[j].len() == g0[j].len(),
        0 <= my < g0.len(),
        0 <= mx < g0[my].len(),
        !g0[my][mx].bomb,
        g1[my][mx].bomb,
        forall|i: int, j: int|
            #![trigger g1[j][i]]
            #![trigger g0[j][i]]
            0 <= j < g0.len() && 0 <= i < g0[j].len() && !(i == mx && j == my) ==> g1[j][i].bomb
                == g0[j][i].bomb,
    ensures
        mine_at(g1, a, b) == mine_at(g0, a, b) + (if a == mx && b == my {
            1int
        } else {
            0int
        }),
{
    reveal(mine_at);
}

/// One cell's neighbor-mine count after the mine at `(mx, my)` is set: up by
/// its adjacency to the mine.
proof fn lemma_neighbor_mines_shift(
    g0: Seq<Vec<Cell>>,
    g1: Seq<Vec<Cell>>,
    mx: int,
    my: int,
    x: int,
    y: int,
)
    requires
        g1.len() == g0.len(),
        forall|j: int| #![auto] 0 <= j < g0.len() ==> g1[j].len() == g0[j].len(),
        0 <= my < g0.len(),
        0 <= mx < g0[my].len(),
        !g0[my][mx].bomb,
        g1[my][mx].bomb,
        forall|i: int, j: int|
            #![trigger g1[j][i]]
            #![trigger g0[j][i]]
            0 <= j < g0.len() && 0 <= i < g0[j].len() && !(i == mx && j == my) ==> g1[j][i].bomb
                == g0[j][i].bomb,
    ensures
        neighbor_mines(g1, x, y) == neighbor_mines(g0, x, y) + adj_indicator(mx, my, x, y),
{
    reveal(neighbor_mines);
    lemma_mine_at_shift(g0, g1, mx, my, x - 1, y - 1);
    lemma_mine_at_shift(g0, g1, mx, my, x, y - 1);
    lemma_mine_at_shift(g0, g1, mx, my, x + 1, y - 1);
    lemma_mine_at_shift(g0, g1, mx, my, x - 1, y);
    lemma_mine_at_shift(g0, g1, mx, my, x + 1, y);
    lemma_mine_at_shift(g0, g1, mx, my, x - 1, y + 1);
    lemma_mine_at_shift(g0, g1, mx, my, x, y + 1);
    lemma_mine_at_shift(g0, g1, mx, my, x + 1, y + 1);
}

/// One cell's neighbor-mine count is unmoved by changes that keep every mine.
pub proof fn lemma_neighbor_mines_same(
    g1: Seq<Vec<Cell>>,
    g2: Seq<Vec<Cell>>,
    x: int,
    y: int,
)
    requires
        g2.len() == g1.len(),
        forall|j: int| #![auto] 0 <= j < g1.len() ==> g2[j].len() == g1[j].len(),
        forall|i: int, j: int|
            #![trigger g2[j][i]]
            #![trigger g1[j][i]]
            0 <= j < g1.len() && 0 <= i < g1[j].len() ==> g2[j][i].bomb == g1[j][i].bomb,
    ensures
        neighbor_mines(g2, x, y) == neighbor_mines(g1, x, y),
{
    reveal(mine_at);
    reveal(neighbor_mines);
    assert(mine_at(g2, x - 1, y - 1) == mine_at(g1, x - 1, y - 1));
    assert(mine_at(g2, x, y - 1) == mine_at(g1, x, y - 1));
    assert(mine_at(g2, x + 1, y - 1) == mine_at(g1, x + 1, y - 1));
    assert(mine_at(g2, x - 1, y) == mine_at(g1, x - 1, y));
    assert(mine_at(g2, x + 1, y) == mine_at(g1, x + 1, y));
    assert(mine_at(g2, x - 1, y + 1) == mine_at(g1, x - 1, y + 1));
    assert(mine_at(g2, x, y + 1) == mine_at(g1, x, y + 1));
    assert(mine_at(g2, x + 1, y + 1) == mine_at(g1, x + 1, y + 1));
}

/// One cell's `surrounds` after the mine at `(mx, my)` is set and the
/// neighbors are bumped: again the true neighbor-mine count.
#[verifier::rlimit(100)]
proof fn lemma_cell_consistent_after(
    g0: Seq<Vec<Cell>>,
    g1: Seq<Vec<Cell>>,
    g2: Seq<Vec<Cell>>,
    mx: int,
    my: int,
    i: int,
    j: int,
)
    requires
        surrounds_consistent(g0),
        0 <= my < g0.len(),
        0 <= mx < g0[my].len(),
        !g0[my][mx].bomb,
        only_cell_changed(g0, g1, mx, my, (Cell { bomb: true, ..g0[my][mx] })),
        g2.len() == g1.len(),
        forall|j: int| #![auto] 0 <= j < g1.len() ==> g2[j].len() == g1[j].len(),
        forall|i: int, j: int|
            #![trigger g2[j][i]]
            #![trigger g1[j][i]]
            0 <= j < g1.len() && 0 <= i < g1[j].len() ==> g2[j][i].bomb == g1[j][i].bomb
                && g2[j][i].surrounds == g1[j][i].surrounds + adj_indicator(mx, my, i, j),
        0 <= j < g2.len(),
        0 <= i < g2[j].len(),
    ensures
        g2[j][i].surrounds == neighbor_mines(g2, i, j),
{
    lemma_neighbor_mines_same(g1, g2, i, j);
    lemma_neighbor_mines_shift(g0, g1, mx, my, i, j);
    assert(g1[j][i].surrounds == g0[j][i].surrounds);
    assert(g0[j][i].surrounds == neighbor_mines(g0, i, j));
}

/// After the mine at `(mx, my)` is set and its neighbors bumped, every
/// `surrounds` again equals the true neighbor-mine count.
#[verifier::rlimit(100)]
proof fn lemma_place_mine_consistent(
    g0: Seq<Vec<Cell>>,
    g1: Seq<Vec<Cell>>,
    g2: Seq<Vec<Cell>>,
    mx: int,
    my: int,
)
    requires
        surrounds_consistent(g0),
        0 <= my < g0.len(),
        0 <= mx < g0[my].len(),
        !g0[my][mx].bomb,
        only_cell_changed(g0, g1, mx, my, (Cell { bomb: true, ..g0[my][mx] })),
        g2.len() == g1.len(),
        forall|j: int| #![auto] 0 <= j < g1.len() ==> g2[j].len() == g1[j].len(),
        forall|i: int, j: int|
            #![trigger g2[j][i]]
            #![trigger g1[j][i]]
            0 <= j < g1.len() && 0 <= i < g1[j].len() ==> g2[j][i].bomb == g1[j][i].bomb
                && g2[j][i].surrounds == g1[j][i].surrounds + adj_indicator(mx, my, i, j),
    ensures
        surrounds_consistent(g2),
{
    assert forall|i: int, j: int|
        0 <= j < g2.len() && 0 <= i < g2[j].len() implies (#[trigger] g2[j][i]).surrounds
        == neighbor_mines(g2, i, j) by {
        lemma_cell_consistent_after(g0, g1, g2, mx, my, i, j);
    }
}

/// Draws one still-free cell at random, makes it a mine, and records the new
/// mine in the `surrounds` of its neighbors.
#[verifier::rlimit(100)]
fn place_one_mine(
    grid: &mut Vec<Vec<Cell>>,
    free: &mut Vec<(usize, usize)>,
    width: usize,
    height: usize,
)
    requires
        old(grid)@.len() == height,
        forall|j: int| 0 <= j < height ==> (#[trigger] old(grid)@[j]).len() == width,
        surrounds_consistent(old(grid)@),
        forall|i: int, j: int|
            #![auto]
            0 <= j < height && 0 <= i < width ==> !old(grid)@[j][i].flag
                && !old(grid)@[j][i].revealed,
        old(free)@.len() >= 1,
        forall|k: int, l: int| 0 <= k < l < old(free)@.len() ==> old(free)@[k] != old(free)@[l],
        forall|k: int| 0 <= k < old(free)@.len() ==> (#[trigger] old(free)@[k]).0 < width && old(
            free,
        )@[k].1 < height,
        forall|a: usize, b: usize|
            #![auto]
            a < width && b < height ==> (old(free)@.contains((a, b)) <==> !old(
                grid,
            )@[b as int]@[a as int].bomb),
    ensures
        final(grid)@.len() == height,
        forall|j: int| 0 <= j < height ==> (#[trigger] final(grid)@[j]).len() == width,
        total_bombs(final(grid)@) == total_bombs(old(grid)@) + 1,
        surrounds_consistent(final(grid)@),
        forall|i: int, j: int|
            #![auto]
            0 <= j < height && 0 <= i < width ==> !final(grid)@[j][i].flag
                && !final(grid)@[j][i].revealed,
        final(free)@.len() == old(free)@.len() - 1,
        forall|k: int, l: int| 0 <= k < l < final(free)@.len() ==> final(free)@[k]
            != final(free)@[l],
        forall|k: int| 0 <= k < final(free)@.len() ==> (#[trigger] final(free)@[k]).0 < width
            && final(free)@[k].1 < height,
        forall|a: usize, b: usize|
            #![auto]
            a < width && b < height ==> (final(free)@.contains((a, b))
                <==> !final(grid)@[b as int]@[a as int].bomb),
{
    let ghost free0 = free@;
    let ghost g0 = grid@;
    let idx = random_below(free.len());
    let pick = free.swap_remove(idx);
    let mx = pick.0;
    let my = pick.1;
    proof {
        lemma_swap_remove_distinct(free0, idx as int);
        assert(free0.contains((mx, my)));
        assert(!g0[my as int]@[mx as int].bomb);
    }
    let c = grid[my][mx];
    set_cell(grid, mx, my, Cell { bomb: true, ..c });
    let ghost g1 = grid@;
    proof {
        lemma_consistent_surrounds_le(g0);
        assert forall|i: int, j: int|
            #![auto]
            0 <= j < height && 0 <= i < width implies g1[j][i].surrounds < 255 by {
            assert(g1[j][i].surrounds == g0[j][i].surrounds);
        }
    }
    increment_neighbors(grid, mx, my);
    let ghost g2 = grid@;
    proof {
        lemma_place_mine_counts(g0, g1, g2, mx as int, my as int);
        lemma_place_mine_consistent(g0, g1, g2, mx as int, my as int);
        assert forall|a: usize, b: usize|
            #![auto]
            a < width && b < height implies (free@.contains((a, b)) <==> !g2[b as int]@[a as int].bomb) by {
            if a == mx && b == my {
                assert(!free@.contains((a, b)));
            } else {
                assert(g2[b as int]@[a as int].bomb == g0[b as int]@[a as int].bomb);
                assert(free@.contains((a, b)) <==> (free0.contains((a, b)) && (a, b) != (mx, my)));
            }
        }
    }
}

/// A grid of fresh cells holds no mines and satisfies the neighbor-count
/// invariant trivially.
proof fn lemma_all_fresh_counts(g: Seq<Vec<Cell>>, width: nat, height: nat)
    requires
        g.len() == height,
        forall|j: int| 0 <= j < height ==> (#[trigger] g[j]).len() == width,
        forall|i: int, j: int| #![auto] 0 <= j < height && 0 <= i < width ==> g[j][i]
            == fresh_cell(),
    ensures
        total_bombs(g) == 0,
        surrounds_consistent(g),
    decreases g.len(),
{
    if g.len() > 0 {
        lemma_all_fresh_counts(g.drop_last(), width, (height - 1) as nat);
        lemma_row_count_fresh(g.last()@, bomb_pred());
        assert(total_bombs(g) == total_bombs(g.drop_last()) + crate::counting::row_count(
            g.last()@,
            bomb_pred(),
        ));
    }
    assert forall|i: int, j: int|
        0 <= j < g.len() && 0 <= i < g[j].len() implies (#[trigger] g[j][i]).surrounds
        == neighbor_mines(g, i, j) by {
        reveal(mine_at);
        reveal(neighbor_mines);
        assert(g[j][i] == fresh_cell());
        assert forall|a: int, b: int| #![auto] mine_at(g, a, b) == 0 by {
            if 0 <= b < g.len() && 0 <= a < g[b].len() {
                assert(g[b][a] == fresh_cell());
            }
        }
    }
}

/// A row of fresh cells counts zero under any predicate false on fresh cells.
proof fn lemma_row_count_fresh(r: Seq<Cell>, f: spec_fn(Cell) -> bool)
    requires
        forall|i: int| #![auto] 0 <= i < r.len() ==> r[i] == fresh_cell(),
        !f(fresh_cell()),
    ensures
        crate::counting::row_count(r, f) == 0,
    decreases r.len(),
{
    if r.len() > 0 {
        lemma_row_count_fresh(r.drop_last(), f);
    }
}

/// The predicate that picks out unmarked cells of a sweep's marker grid.
pub open spec fn unvisited_pred() -> spec_fn(bool) -> bool {
    |b: bool| !b
}

/// How many cells of the marker grid `v` are still unmarked.
pub open spec fn unvisited_count(v: Seq<Vec<bool>>) -> nat {
    grid_count(v, unvisited_pred())
}

/// `g2` is `g1` after a flood reveal from the zero cell `(sx, sy)`: only
/// `revealed` moves, and it becomes true exactly on the old reveals plus the
/// reveal closure of the start.
pub open spec fn flood_result(g1: Seq<Vec<Cell>>, g2: Seq<Vec<Cell>>, sx: int, sy: int) -> bool {
    &&& g2.len() == g1.len()
    &&& (forall|j: int| #![auto] 0 <= j < g1.len() ==> g2[j].len() == g1[j].len())
    &&& (forall|i: int, j: int|
        #![trigger g2[j][i]]
        #![trigger g1[j][i]]
        0 <= j < g1.len() && 0 <= i < g1[j].len() ==> g2[j][i].bomb == g1[j][i].bomb
            && g2[j][i].surrounds == g1[j][i].surrounds && g2[j][i].flag == g1[j][i].flag && (
        g2[j][i].revealed == (g1[j][i].revealed || in_closure(g1, sx, sy, i, j))))
}

/// What one `open` call does on an in-bounds coordinate: nothing once the
/// game is over or on a flagged cell; a mine reveals itself alone and ends
/// play; a numbered safe cell reveals itself alone; a zero safe cell floods
/// its whole closure. Play goes on in every safe case.
pub open spec fn open_step(pre: Minesweeper, post: Minesweeper, x: int, y: int) -> bool {
    let c = pre.grid@[y][x];
    &&& post.width == pre.width
    &&& post.height == pre.height
    &&& if !pre.playing || c.flag {
        post == pre
    } else if c.bomb {
        &&& !post.playing
        &&& only_cell_changed(pre.grid@, post.grid@, x, y, opened(c))
    } else if c.surrounds != 0 {
        &&& post.playing == pre.playing
        &&& only_cell_changed(pre.grid@, post.grid@, x, y, opened(c))
    } else {
        &&& post.playing == pre.playing
        &&& flood_result(pre.grid@, post.grid@, x, y)
    }
}

/// `height` rows of `width` sweep markers, all clear.
fn make_bool_grid(width: usize, height: usize) -> (v: Vec<Vec<bool>>)
    ensures
        v@.len() == height,
        forall|j: int| 0 <= j < height ==> (#[trigger] v@[j]).len() == width,
        forall|i: int, j: int| #![auto] 0 <= j < height && 0 <= i < width ==> !v@[j][i],
{
    let mut v: Vec<Vec<bool>> = Vec::new();
    for j in 0..height
        invariant
            v@.len() == j,
            forall|jj: int| 0 <= jj < j ==> (#[trigger] v@[jj]).len() == width,
            forall|i: int, jj: int| #![auto] 0 <= jj < j && 0 <= i < width ==> !v@[jj][i],
    {
        let mut row: Vec<bool> = Vec::new();
        for i in 0..width
            invariant
                row@.len() == i,
                forall|ii: int| #![auto] 0 <= ii < i ==> !row@[ii],
    {
            row.push(false);
        }
        v.push(row);
    }
    v
}

/// The sweep invariant: shapes kept; mines, counts and markers untouched;
/// reveals only grow, and only into the closure; marked cells lie in the
/// region and are revealed; stacked cells are marked; unstacked marked cells
/// are fully handled.
spec fn flood_inv(
    g0: Seq<Vec<Cell>>,
    g: Seq<Vec<Cell>>,
    v: Seq<Vec<bool>>,
    st: Seq<(usize, usize)>,
    sx: int,
    sy: int,
) -> bool {
    &&& g.len() == g0.len()
    &&& (forall|j: int| #![auto] 0 <= j < g0.len() ==> g[j].len() == g0[j].len())
    &&& v.len() == g0.len()
    &&& (forall|j: int| #![auto] 0 <= j < g0.len() ==> v[j].len() == g0[j].len())
    &&& (forall|i: int, j: int|
        #![trigger g[j][i]]
        0 <= j < g0.len() && 0 <= i < g0[j].len() ==> g[j][i].bomb == g0[j][i].bomb && g[j][i].surrounds
            == g0[j][i].surrounds && g[j][i].flag == g0[j][i].flag && (g0[j][i].revealed
            ==> g[j][i].revealed) && (g[j][i].revealed ==> g0[j][i].revealed || in_closure(
            g0,
            sx,
            sy,
            i,
            j,
        )))
    &&& (forall|i: int, j: int|
        #![trigger v[j][i]]
        0 <= j < g0.len() && 0 <= i < g0[j].len() && v[j][i] ==> in_region(g0, sx, sy, i, j)
            && g[j][i].revealed)
    &&& (forall|q: (usize, usize)|
        #[trigger] st.contains(q) ==> q.1 < g0.len() && q.0 < g0[q.1 as int].len()
            && v[q.1 as int][q.0 as int])
    &&& (forall|i: int, j: int|
        #![trigger v[j][i]]
        0 <= j < g0.len() && 0 <= i < g0[j].len() && v[j][i] && !st.contains(
            ((i as usize), (j as usize)),
        ) ==> neighbors_done(g0, g, v, i, j))
}

/// Reveals the cell `(nx, ny)`; a still-unmarked zero cell is also marked and
/// put on the stack. The stack length plus the unmarked count is conserved.
fn visit_cell(
    grid: &mut Vec<Vec<Cell>>,
    visited: &mut Vec<Vec<bool>>,
    stack: &mut Vec<(usize, usize)>,
    nx: usize,
    ny: usize,
)
    requires
        old(visited)@.len() == old(grid)@.len(),
        forall|j: int| #![auto] 0 <= j < old(grid)@.len() ==> old(visited)@[j].len() == old(
            grid,
        )@[j].len(),
        ny < old(grid)@.len(),
        nx < old(grid)@[ny as int].len(),
    ensures
        only_cell_changed(
            old(grid)@,
            final(grid)@,
            nx as int,
            ny as int,
            opened(old(grid)@[ny as int]@[nx as int]),
        ),
        final(visited)@.len() == old(visited)@.len(),
        forall|j: int| #![auto] 0 <= j < old(visited)@.len() ==> final(visited)@[j].len() == old(
            visited,
        )@[j].len(),
        forall|i: int, j: int|
            #![trigger final(visited)@[j][i]]
            0 <= j < old(visited)@.len() && 0 <= i < old(visited)@[j].len() ==> final(visited)@[j][i] == (old(visited)@[j][i] || (i == nx && j == ny && old(
                grid,
            )@[ny as int]@[nx as int].surrounds == 0)),
        (if old(grid)@[ny as int]@[nx as int].surrounds == 0 && !old(
            visited,
        )@[ny as int]@[nx as int] {
            final(stack)@ == old(stack)@.push((nx, ny))
        } else {
            final(stack)@ == old(stack)@
        }),
        forall|q: (usize, usize)| #[trigger] old(stack)@.contains(q) ==> final(stack)@.contains(q),
        forall|q: (usize, usize)| #[trigger] final(stack)@.contains(q) ==> old(stack)@.contains(q)
            || (q == ((nx, ny)) && old(grid)@[ny as int]@[nx as int].surrounds == 0),
        (old(grid)@[ny as int]@[nx as int].surrounds == 0 && !old(
            visited,
        )@[ny as int]@[nx as int]) ==> final(stack)@.contains(((nx, ny))),
        final(stack)@.len() + unvisited_count(final(visited)@) == old(stack)@.len()
            + unvisited_count(old(visited)@),
{
    let ghost st0 = stack@;
    let ghost v0 = visited@;
    let c = grid[ny][nx];
    set_cell(grid, nx, ny, Cell { revealed: true, ..c });
    if c.surrounds == 0 && !visited[ny][nx] {
        let row = &mut visited[ny];
        row.set(nx, true);
        stack.push((nx, ny));
        proof {
            lemma_grid_count_update(v0, visited@, unvisited_pred(), nx as int, ny as int);
            assert(stack@[st0.len() as int] == (nx, ny));
            assert(stack@.contains(((nx, ny))));
            assert forall|q: (usize, usize)| #[trigger] st0.contains(q) implies stack@.contains(
                q,
            ) by {
                let k = choose|k: int| 0 <= k < st0.len() && st0[k] == q;
                assert(stack@[k] == q);
            }
            assert forall|q: (usize, usize)| #[trigger] stack@.contains(q) implies st0.contains(q)
                || q == ((nx, ny)) by {
                let k = choose|k: int| 0 <= k < stack@.len() && stack@[k] == q;
                if k < st0.len() {
                    assert(st0[k] == q);
                }
            }
        }
    }
}

/// One sweep iteration keeps the invariant: the popped cell's neighbors are
/// now all revealed and its zero neighbors marked and stacked, while every
/// earlier fact only grows.
#[verifier::rlimit(100)]
proof fn lemma_flood_iteration(
    g0: Seq<Vec<Cell>>,
    gb: Seq<Vec<Cell>>,
    g: Seq<Vec<Cell>>,
    vb: Seq<Vec<bool>>,
    v: Seq<Vec<bool>>,
    st0: Seq<(usize, usize)>,
    st: Seq<(usize, usize)>,
    sx: int,
    sy: int,
    cx: int,
    cy: int,
)
    requires
        flood_inv(g0, gb, vb, st0, sx, sy),
        zero_cell(g0, sx, sy),
        g0.len() <= usize::MAX,
        st0.len() > 0,
        cx == st0.last().0 as int,
        cy == st0.last().1 as int,
        g.len() == g0.len(),
        forall|j: int| #![auto] 0 <= j < g0.len() ==> g[j].len() == g0[j].len(),
        v.len() == g0.len(),
        forall|j: int| #![auto] 0 <= j < g0.len() ==> v[j].len() == g0[j].len(),
        forall|i: int, j: int|
            #![trigger g[j][i]]
            0 <= j < g0.len() && 0 <= i < g0[j].len() ==> g[j][i].bomb == gb[j][i].bomb
                && g[j][i].surrounds == gb[j][i].surrounds && g[j][i].flag == gb[j][i].flag
                && g[j][i].revealed == (gb[j][i].revealed || adjacent(cx, cy, i, j)),
        forall|i: int, j: int|
            #![trigger v[j][i]]
            0 <= j < g0.len() && 0 <= i < g0[j].len() ==> v[j][i] == (vb[j][i] || (adjacent(
                cx,
                cy,
                i,
                j,
            ) && g0[j][i].surrounds == 0)),
        forall|q: (usize, usize)| #[trigger]
            st.contains(q) ==> st0.contains(q) || (q.1 < g0.len() && q.0 < g0[q.1 as int].len()
                && adjacent(cx, cy, q.0 as int, q.1 as int) && g0[q.1 as int][q.0 as int].surrounds
                == 0),
        forall|q: (usize, usize)|
            st0.contains(q) && q != st0.last() ==> #[trigger] st.contains(q),
        forall|i: int, j: int|
            0 <= j < g0.len() && 0 <= i < g0[j].len() && !vb[j][i] && (#[trigger] v[j][i])
                ==> st.contains(((i as usize), (j as usize))),
    ensures
        flood_inv(g0, g, v, st, sx, sy),
{
    let top = st0.last();
    assert(st0[st0.len() - 1] == top);
    assert(st0.contains(top));
    assert(vb[cy][cx]);
    assert(in_region(g0, sx, sy, cx, cy));
    assert(cy < g0.len() && cx < g0[cy].len());
    assert forall|i: int, j: int|
        #![trigger g[j][i]]
        0 <= j < g0.len() && 0 <= i < g0[j].len() implies g[j][i].bomb == g0[j][i].bomb
        && g[j][i].surrounds == g0[j][i].surrounds && g[j][i].flag == g0[j][i].flag && (
    g0[j][i].revealed ==> g[j][i].revealed) && (g[j][i].revealed ==> g0[j][i].revealed
        || in_closure(g0, sx, sy, i, j)) by {
        if g[j][i].revealed && !gb[j][i].revealed {
            assert(adjacent(cx, cy, i, j));
            assert(in_closure(g0, sx, sy, i, j));
        }
    }
    assert forall|i: int, j: int|
        #![trigger v[j][i]]
        0 <= j < g0.len() && 0 <= i < g0[j].len() && v[j][i] implies in_region(g0, sx, sy, i, j)
        && g[j][i].revealed by {
        if vb[j][i] {
            assert(gb[j][i].revealed);
        } else {
            assert(adjacent(cx, cy, i, j) && g0[j][i].surrounds == 0);
            lemma_region_step(g0, sx, sy, cx, cy, i, j);
        }
    }
    assert forall|q: (usize, usize)| #[trigger]
        st.contains(q) implies q.1 < g0.len() && q.0 < g0[q.1 as int].len() && v[q.1 as int][q.0 as int] by {
        if st0.contains(q) {
            assert(vb[q.1 as int][q.0 as int]);
        }
    }
    assert forall|i: int, j: int|
        #![trigger v[j][i]]
        0 <= j < g0.len() && 0 <= i < g0[j].len() && v[j][i] && !st.contains(
            ((i as usize), (j as usize)),
        ) implies neighbors_done(g0, g, v, i, j) by {
        assert(vb[j][i]);
        if i == cx && j == cy {
            assert forall|a: int, b: int|
                #![trigger g[b][a]]
                #![trigger v[b][a]]
                0 <= b < g0.len() && 0 <= a < g0[b].len() && adjacent(i, j, a, b) implies g[b][a].revealed
                && (g0[b][a].surrounds == 0 ==> v[b][a]) by {}
        } else {
            if ((i as usize), (j as usize)) == st0.last() {
                assert(st0.last().0 == i as usize && st0.last().1 == j as usize);
                assert(cx == i && cy == j);
            }
            assert(((i as usize), (j as usize)) != st0.last());
            assert(!st0.contains(((i as usize), (j as usize))));
            assert(neighbors_done(g0, gb, vb, i, j));
            assert forall|a: int, b: int|
                #![trigger g[b][a]]
                #![trigger v[b][a]]
                0 <= b < g0.len() && 0 <= a < g0[b].len() && adjacent(i, j, a, b) implies g[b][a].revealed
                && (g0[b][a].surrounds == 0 ==> v[b][a]) by {
                assert(gb[b][a].revealed && (g0[b][a].surrounds == 0 ==> vb[b][a]));
            }
        }
    }
}

impl Minesweeper {
    /// Flood reveal from the zero cell `(x, y)`: reveals exactly its
    /// connected zero region and that region's border, by a worklist sweep.
    #[verifier::rlimit(100)]
    fn flood_open(&mut self, x: usize, y: usize)
        requires
            old(self).wf(),
            old(self).in_bounds(x as int, y as int),
            old(self).grid@[y as int][x as int].surrounds == 0,
        ensures
            final(self).wf(),
            final(self).playing == old(self).playing,
            final(self).width == old(self).width,
            final(self).height == old(self).height,
            flood_result(old(self).grid@, final(self).grid@, x as int, y as int),
    {
        let ghost g0 = self.grid@;
        let mut visited = make_bool_grid(self.width, self.height);
        let mut stack: Vec<(usize, usize)> = Vec::new();
        proof {
            lemma_region_start(g0, x as int, y as int);
        }
        visit_cell(&mut self.grid, &mut visited, &mut stack, x, y);
        while stack.len() != 0
            invariant
                self.width == old(self).width,
                self.height == old(self).height,
                self.playing == old(self).playing,
                g0 == old(self).grid@,
                g0.len() == self.height,
                forall|j: int| 0 <= j < self.height ==> (#[trigger] g0[j]).len() == self.width,
                zero_cell(g0, x as int, y as int),
                visited@[y as int][x as int],
                flood_inv(g0, self.grid@, visited@, stack@, x as int, y as int),
            decreases stack@.len() + unvisited_count(visited@),
        {
            let ghost st0 = stack@;
            let ghost gb = self.grid@;
            let ghost vb = visited@;
            let top = stack.pop().unwrap();
            let ghost st1 = stack@;
            let cx = top.0;
            let cy = top.1;
            proof {
                assert(st0[st0.len() - 1] == top);
                assert(st0.contains(top));
                assert(visited@[cy as int][cx as int]);
                lemma_region_ends(g0, x as int, y as int, cx as int, cy as int);
            }
            let w = self.width;
            let h = self.height;
            if cx >= 1 && cy >= 1 {
                visit_cell(&mut self.grid, &mut visited, &mut stack, cx - 1, cy - 1);
            }
            if cy >= 1 {
                visit_cell(&mut self.grid, &mut visited, &mut stack, cx, cy - 1);
            }
            if cx + 1 < w && cy >= 1 {
                visit_cell(&mut self.grid, &mut visited, &mut stack, cx + 1, cy - 1);
            }
            if cx >= 1 {
                visit_cell(&mut self.grid, &mut visited, &mut stack, cx - 1, cy);
            }
            if cx + 1 < w {
                visit_cell(&mut self.grid, &mut visited, &mut stack, cx + 1, cy);
            }
            if cx >= 1 && cy + 1 < h {
                visit_cell(&mut self.grid, &mut visited, &mut stack, cx - 1, cy + 1);
            }
            if cy + 1 < h {
                visit_cell(&mut self.grid, &mut visited, &mut stack, cx, cy + 1);
            }
            if cx + 1 < w && cy + 1 < h {
                visit_cell(&mut self.grid, &mut visited, &mut stack, cx + 1, cy + 1);
            }
            proof {
                let g = self.grid@;
                let v = visited@;
                let st = stack@;
                assert forall|q: (usize, usize)| st0.contains(q) && q != top implies st1.contains(
                    q,
                ) by {
                    let k = choose|k: int| 0 <= k < st0.len() && st0[k] == q;
                    assert(k < st0.len() - 1);
                    assert(st1[k] == q);
                }
                assert forall|q: (usize, usize)| #[trigger] st1.contains(q) implies st0.contains(
                    q,
                ) by {
                    let k = choose|k: int| 0 <= k < st1.len() && st1[k] == q;
                    assert(st0[k] == q);
                }
                assert forall|i: int, j: int|
                    #![trigger g[j][i]]
                    0 <= j < g0.len() && 0 <= i < g0[j].len() implies g[j][i].bomb == gb[j][i].bomb
                    && g[j][i].surrounds == gb[j][i].surrounds && g[j][i].flag == gb[j][i].flag
                    && g[j][i].revealed == (gb[j][i].revealed || adjacent(
                    cx as int,
                    cy as int,
                    i,
                    j,
                )) by {}
                assert forall|i: int, j: int|
                    #![trigger v[j][i]]
                    0 <= j < g0.len() && 0 <= i < g0[j].len() implies v[j][i] == (vb[j][i]
                    || (adjacent(cx as int, cy as int, i, j) && g0[j][i].surrounds == 0)) by {}
                assert forall|q: (usize, usize)| #[trigger] st.contains(q) implies st0.contains(q)
                    || (q.1 < g0.len() && q.0 < g0[q.1 as int].len() && adjacent(
                    cx as int,
                    cy as int,
                    q.0 as int,
                    q.1 as int,
                ) && g0[q.1 as int][q.0 as int].surrounds == 0) by {}
                assert forall|q: (usize, usize)|
                    st0.contains(q) && q != top implies st.contains(q) by {
                    assert(st1.contains(q));
                }
                assert forall|i: int, j: int|
                    0 <= j < g0.len() && 0 <= i < g0[j].len() && !vb[j][i] && (#[trigger] v[j][i])
                    implies st.contains(((i as usize), (j as usize))) by {}
                lemma_flood_iteration(
                    g0,
                    gb,
                    g,
                    vb,
                    v,
                    st0,
                    st,
                    x as int,
                    y as int,
                    cx as int,
                    cy as int,
                );
            }
        }
        proof {
            lemma_flood_complete(
                g0,
                self.grid@,
                visited@,
                x as int,
                y as int,
            );
            assert forall|i: int, j: int|
                #![trigger self.grid@[j][i]]
                0 <= j < g0.len() && 0 <= i < g0[j].len() implies self.grid@[j][i].revealed == (
            g0[j][i].revealed || in_closure(g0, x as int, y as int, i, j)) by {}
        }
    }
}

impl Minesweeper {
    /// Opens the cell `(x, y)`.
    ///
    /// Refused outside the grid; a no-op once the game is over or on a
    /// flagged cell. A mine is revealed alone and ends play; a numbered safe
    /// cell is revealed alone; a zero safe cell floods its connected zero
    /// region and that region's border. Play continues in every safe case.
    pub fn open(&mut self, x: usize, y: usize) -> (r: Result<(), BoardError>)
        requires
            old(self).wf(),
        ensures
            final(self).wf(),
            final(self).width == old(self).width,
            final(self).height == old(self).height,
            r == (if old(self).in_bounds(x as int, y as int) {
                Ok::<(), BoardError>(())
            } else {
                Err::<(), BoardError>(BoardError::OutOfBounds)
            }),
            !old(self).in_bounds(x as int, y as int) ==> *final(self) == *old(self),
            old(self).in_bounds(x as int, y as int) ==> open_step(
                *old(self),
                *final(self),
                x as int,
                y as int,
            ),
    {
        if !(x < self.width && y < self.height) {
            return Err(BoardError::OutOfBounds);
        }
        if !self.playing || self.grid[y][x].flag {
            return Ok(());
        }
        let c = self.grid[y][x];
        if c.bomb {
            set_cell(&mut self.grid, x, y, Cell { revealed: true, ..c });
            self.playing = false;
            Ok(())
        } else if c.surrounds != 0 {
            set_cell(&mut self.grid, x, y, Cell { revealed: true, ..c });
            Ok(())
        } else {
            self.flood_open(x, y);
            Ok(())
        }
    }
}

impl Minesweeper {
    /// Toggles the suspected-mine marker of `(x, y)`.
    ///
    /// Refused outside the grid; a no-op once the game is over; otherwise it
    /// flips that cell's `flag` and touches nothing else.
    pub fn flag(&mut self, x: usize, y: usize) -> (r: Result<(), BoardError>)
        requires
            old(self).wf(),
        ensures
            final(self).wf(),
            final(self).width == old(self).width,
            final(self).height == old(self).height,
            r == (if old(self).in_bounds(x as int, y as int) {
                Ok::<(), BoardError>(())
            } else {
                Err::<(), BoardError>(BoardError::OutOfBounds)
            }),
            !old(self).in_bounds(x as int, y as int) ==> *final(self) == *old(self),
            old(self).in_bounds(x as int, y as int) ==> flag_step(
                *old(self),
                *final(self),
                x as int,
                y as int,
            ),
    {
        if !(x < self.width && y < self.height) {
            return Err(BoardError::OutOfBounds);
        }
        if !self.playing {
            return Ok(());
        }
        let c = self.grid[y][x];
        set_cell(&mut self.grid, x, y, Cell { flag: !c.flag, ..c });
        Ok(())
    }
}

} // verus!
