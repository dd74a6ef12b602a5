use vstd::prelude::*;
use crate::board::Cell;

verus! {

/// Two distinct grid positions whose coordinates differ by at most one in
/// each direction: the 8-neighborhood relation.
pub open spec fn adjacent(x1: int, y1: int, x2: int, y2: int) -> bool {
    &&& -1 <= x2 - x1 <= 1
    &&& -1 <= y2 - y1 <= 1
    &&& !(x1 == x2 && y1 == y2)
}

/// An in-bounds cell with no mine among its neighbors.
pub open spec fn zero_cell(g: Seq<Vec<Cell>>, x: int, y: int) -> bool {
    &&& 0 <= y < g.len()
    &&& 0 <= x < g[y].len()
    &&& g[y][x].surrounds == 0
}

/// A walk over zero-`surrounds` cells: every stop is a zero cell and
/// consecutive stops are 8-adjacent.
pub open spec fn is_zero_path(g: Seq<Vec<Cell>>, p: Seq<(int, int)>) -> bool {
    &&& p.len() > 0
    &&& forall|k: int| 0 <= k < p.len() ==> zero_cell(g, (#[trigger] p[k]).0, p[k].1)
    &&& forall|k: int|
        0 < k < p.len() ==> adjacent(p[k - 1].0, p[k - 1].1, (#[trigger] p[k]).0, p[k].1)
}

/// `(x, y)` belongs to the connected zero-`surrounds` region of `(sx, sy)`:
/// some zero-path leads from the one to the other.
pub open spec fn in_region(g: Seq<Vec<Cell>>, sx: int, sy: int, x: int, y: int) -> bool {
    exists|p: Seq<(int, int)>|
        is_zero_path(g, p) && p[0] == (sx, sy) && p.last() == (x, y)
}

/// The reveal closure of a zero cell: its connected zero region together
/// with every in-bounds cell bordering that region.
pub open spec fn in_closure(g: Seq<Vec<Cell>>, sx: int, sy: int, x: int, y: int) -> bool {
    ||| in_region(g, sx, sy, x, y)
    ||| {
        &&& 0 <= y < g.len()
        &&& 0 <= x < g[y].len()
        &&& exists|i: int, j: int| in_region(g, sx, sy, i, j) && adjacent(i, j, x, y)
    }
}

/// The start of a region is in it, by the one-stop path.
pub proof fn lemma_region_start(g: Seq<Vec<Cell>>, sx: int, sy: int)
    requires
        zero_cell(g, sx, sy),
    ensures
        in_region(g, sx, sy, sx, sy),
{
    let p = seq![(sx, sy)];
    assert(is_zero_path(g, p) && p[0] == (sx, sy) && p.last() == (sx, sy));
}

/// A region extends across adjacency to any further zero cell.
pub proof fn lemma_region_step(g: Seq<Vec<Cell>>, sx: int, sy: int, x: int, y: int, nx: int, ny: int)
    requires
        in_region(g, sx, sy, x, y),
        adjacent(x, y, nx, ny),
        zero_cell(g, nx, ny),
    ensures
        in_region(g, sx, sy, nx, ny),
{
    let p = choose|p: Seq<(int, int)>|
        is_zero_path(g, p) && p[0] == (sx, sy) && p.last() == (x, y);
    let q = p.push((nx, ny));
    assert forall|k: int| 0 <= k < q.len() implies zero_cell(g, (#[trigger] q[k]).0, q[k].1) by {
        if k < p.len() {
            assert(q[k] == p[k]);
        }
    }
    assert forall|k: int|
        0 < k < q.len() implies adjacent(q[k - 1].0, q[k - 1].1, (#[trigger] q[k]).0, q[k].1) by {
        if k < p.len() {
            assert(q[k] == p[k] && q[k - 1] == p[k - 1]);
        } else {
            assert(q[k - 1] == p.last());
        }
    }
    assert(is_zero_path(g, q) && q[0] == (sx, sy) && q.last() == (nx, ny));
}

/// Both ends of a region's witness path are zero cells.
pub proof fn lemma_region_ends(g: Seq<Vec<Cell>>, sx: int, sy: int, x: int, y: int)
    requires
        in_region(g, sx, sy, x, y),
    ensures
        zero_cell(g, x, y),
        zero_cell(g, sx, sy),
{
    let p = choose|p: Seq<(int, int)>|
        is_zero_path(g, p) && p[0] == (sx, sy) && p.last() == (x, y);
    assert(zero_cell(g, p[0].0, p[0].1));
    assert(zero_cell(g, p[p.len() - 1].0, p[p.len() - 1].1));
}

/// During a sweep, a zero cell counts as handled when every neighbor is
/// revealed and every zero neighbor is marked.
pub open spec fn neighbors_done(
    g0: Seq<Vec<Cell>>,
    g: Seq<Vec<Cell>>,
    v: Seq<Vec<bool>>,
    i: int,
    j: int,
) -> bool {
    forall|a: int, b: int|
        #![trigger g[b][a]]
        #![trigger v[b][a]]
        0 <= b < g0.len() && 0 <= a < g0[b].len() && adjacent(i, j, a, b) ==> g[b][a].revealed && (
        g0[b][a].surrounds == 0 ==> v[b][a])
}

/// Once every marked cell is handled, a mark at the head of a zero-path has
/// propagated to its far end.
pub proof fn lemma_path_visited(
    g0: Seq<Vec<Cell>>,
    g: Seq<Vec<Cell>>,
    v: Seq<Vec<bool>>,
    p: Seq<(int, int)>,
)
    requires
        is_zero_path(g0, p),
        v.len() == g0.len(),
        forall|j: int| #![auto] 0 <= j < g0.len() ==> v[j].len() == g0[j].len(),
        ({
            let s = p[0];
            v[s.1][s.0]
        }),
        forall|i: int, j: int|
            #![trigger v[j][i]]
            0 <= j < g0.len() && 0 <= i < g0[j].len() && v[j][i] ==> neighbors_done(g0, g, v, i, j),
    ensures
        ({
            let e = p.last();
            v[e.1][e.0]
        }),
    decreases p.len(),
{
    if p.len() > 1 {
        let q = p.drop_last();
        assert forall|k: int| 0 <= k < q.len() implies zero_cell(
            g0,
            (#[trigger] q[k]).0,
            q[k].1,
        ) by {
            assert(q[k] == p[k]);
        }
        assert forall|k: int|
            0 < k < q.len() implies adjacent(q[k - 1].0, q[k - 1].1, (#[trigger] q[k]).0, q[k].1) by {
            assert(q[k] == p[k] && q[k - 1] == p[k - 1]);
        }
        assert(q[0] == p[0]);
        lemma_path_visited(g0, g, v, q);
        let prev = p[p.len() - 2];
        let e = p.last();
        assert(q.last() == prev);
        assert(zero_cell(g0, prev.0, prev.1));
        assert(zero_cell(g0, e.0, e.1));
        assert(adjacent(prev.0, prev.1, e.0, e.1));
        assert(neighbors_done(g0, g, v, prev.0, prev.1));
        assert(v[e.1][e.0]);
    }
}

/// With the sweep finished — start marked, every marked cell handled — the
/// whole reveal closure of the start is revealed.
pub proof fn lemma_flood_complete(
    g0: Seq<Vec<Cell>>,
    g: Seq<Vec<Cell>>,
    v: Seq<Vec<bool>>,
    sx: int,
    sy: int,
)
    requires
        g.len() == g0.len(),
        forall|j: int| #![auto] 0 <= j < g0.len() ==> g[j].len() == g0[j].len(),
        v.len() == g0.len(),
        forall|j: int| #![auto] 0 <= j < g0.len() ==> v[j].len() == g0[j].len(),
        zero_cell(g0, sx, sy),
        v[sy][sx],
        forall|i: int, j: int|
            #![trigger v[j][i]]
            0 <= j < g0.len() && 0 <= i < g0[j].len() && v[j][i] ==> neighbors_done(g0, g, v, i, j),
        forall|i: int, j: int|
            #![trigger v[j][i]]
            0 <= j < g0.len() && 0 <= i < g0[j].len() && v[j][i] ==> g[j][i].revealed,
    ensures
        forall|i: int, j: int|
            #[trigger] in_closure(g0, sx, sy, i, j) ==> g[j][i].revealed,
{
    assert forall|i: int, j: int| #[trigger] in_region(g0, sx, sy, i, j) implies v[j][i] by {
        let p = choose|p: Seq<(int, int)>|
            is_zero_path(g0, p) && p[0] == (sx, sy) && p.last() == (i, j);
        lemma_path_visited(g0, g, v, p);
    }
    assert forall|i: int, j: int| #[trigger] in_closure(g0, sx, sy, i, j) implies g[j][i].revealed by {
        if in_region(g0, sx, sy, i, j) {
            lemma_region_ends(g0, sx, sy, i, j);
        } else {
            let (a, b) = choose|a: int, b: int|
                in_region(g0, sx, sy, a, b) && adjacent(a, b, i, j);
            lemma_region_ends(g0, sx, sy, a, b);
            assert(v[b][a]);
            assert(neighbors_done(g0, g, v, a, b));
        }
    }
}


} // verus!
