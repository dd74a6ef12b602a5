use vstd::prelude::*;

verus! {

/// Number of entries of `row` that satisfy `f`.
pub open spec fn row_count<T>(row: Seq<T>, f: spec_fn(T) -> bool) -> nat
    decreases row.len(),
{
    if row.len() == 0 {
        0
    } else {
        row_count(row.drop_last(), f) + (if f(row.last()) {
            1nat
        } else {
            0nat
        })
    }
}

/// Number of cells of the row-major grid `g` that satisfy `f`.
pub open spec fn grid_count<T>(g: Seq<Vec<T>>, f: spec_fn(T) -> bool) -> nat
    decreases g.len(),
{
    if g.len() == 0 {
        0
    } else {
        grid_count(g.drop_last(), f) + row_count(g.last()@, f)
    }
}

/// A count sees only what `f` makes of each entry: rows whose entries agree
/// under `f` have the same count.
pub proof fn lemma_row_count_congruence<T>(r1: Seq<T>, r2: Seq<T>, f: spec_fn(T) -> bool)
    requires
        r1.len() == r2.len(),
        forall|i: int| #![auto] 0 <= i < r1.len() ==> f(r1[i]) == f(r2[i]),
    ensures
        row_count(r1, f) == row_count(r2, f),
    decreases r1.len(),
{
    if r1.len() > 0 {
        lemma_row_count_congruence(r1.drop_last(), r2.drop_last(), f);
    }
}

/// Grids whose cells agree under `f` have the same count.
pub proof fn lemma_grid_count_congruence<T>(g1: Seq<Vec<T>>, g2: Seq<Vec<T>>, f: spec_fn(T) -> bool)
    requires
        g1.len() == g2.len(),
        forall|j: int| #![auto] 0 <= j < g1.len() ==> g1[j].len() == g2[j].len(),
        forall|i: int, j: int|
            #![auto]
            0 <= j < g1.len() && 0 <= i < g1[j].len() ==> f(g1[j][i]) == f(g2[j][i]),
    ensures
        grid_count(g1, f) == grid_count(g2, f),
    decreases g1.len(),
{
    if g1.len() > 0 {
        lemma_grid_count_congruence(g1.drop_last(), g2.drop_last(), f);
        lemma_row_count_congruence(g1.last()@, g2.last()@, f);
    }
}

/// Changing one entry moves the count by the difference that `f` sees there.
pub proof fn lemma_row_count_update<T>(r1: Seq<T>, r2: Seq<T>, f: spec_fn(T) -> bool, x: int)
    requires
        r1.len() == r2.len(),
        0 <= x < r1.len(),
        forall|i: int| #![auto] 0 <= i < r1.len() && i != x ==> f(r1[i]) == f(r2[i]),
    ensures
        row_count(r2, f) + (if f(r1[x]) {
            1int
        } else {
            0int
        }) == row_count(r1, f) + (if f(r2[x]) {
            1int
        } else {
            0int
        }),
    decreases r1.len(),
{
    if x == r1.len() - 1 {
        lemma_row_count_congruence(r1.drop_last(), r2.drop_last(), f);
    } else {
        lemma_row_count_update(r1.drop_last(), r2.drop_last(), f, x);
    }
}

/// Changing one cell moves the grid count by the difference that `f` sees there.
pub proof fn lemma_grid_count_update<T>(
    g1: Seq<Vec<T>>,
    g2: Seq<Vec<T>>,
    f: spec_fn(T) -> bool,
    x: int,
    y: int,
)
    requires
        g1.len() == g2.len(),
        forall|j: int| #![auto] 0 <= j < g1.len() ==> g1[j].len() == g2[j].len(),
        0 <= y < g1.len(),
        0 <= x < g1[y].len(),
        forall|i: int, j: int|
            #![auto]
            0 <= j < g1.len() && 0 <= i < g1[j].len() && !(i == x && j == y) ==> f(g1[j][i]) == f(
                g2[j][i],
            ),
    ensures
        grid_count(g2, f) + (if f(g1[y][x]) {
            1int
        } else {
            0int
        }) == grid_count(g1, f) + (if f(g2[y][x]) {
            1int
        } else {
            0int
        }),
    decreases g1.len(),
{
    if y == g1.len() - 1 {
        lemma_grid_count_congruence(g1.drop_last(), g2.drop_last(), f);
        lemma_row_count_update(g1.last()@, g2.last()@, f, x);
    } else {
        lemma_grid_count_update(g1.drop_last(), g2.drop_last(), f, x, y);
        lemma_row_count_congruence(g1.last()@, g2.last()@, f);
    }
}

/// A row with count zero has no entry satisfying `f`.
pub proof fn lemma_row_count_zero<T>(r: Seq<T>, f: spec_fn(T) -> bool)
    requires
        row_count(r, f) == 0,
    ensures
        forall|i: int| #![auto] 0 <= i < r.len() ==> !f(r[i]),
    decreases r.len(),
{
    if r.len() > 0 {
        lemma_row_count_zero(r.drop_last(), f);
        assert forall|i: int| 0 <= i < r.len() implies !f(r[i]) by {
            if i < r.len() - 1 {
                assert(!f(r.drop_last()[i]));
            } else {
                assert(r[i] == r.last());
            }
        }
    }
}

/// A grid with count zero has no cell satisfying `f`.
pub proof fn lemma_grid_count_zero<T>(g: Seq<Vec<T>>, f: spec_fn(T) -> bool)
    requires
        grid_count(g, f) == 0,
    ensures
        forall|i: int, j: int|
            #![auto]
            0 <= j < g.len() && 0 <= i < g[j].len() ==> !f(g[j][i]),
    decreases g.len(),
{
    if g.len() > 0 {
        lemma_grid_count_zero(g.drop_last(), f);
        lemma_row_count_zero(g.last()@, f);
        assert forall|i: int, j: int|
            0 <= j < g.len() && 0 <= i < g[j].len() implies !f(g[j][i]) by {
            if j < g.len() - 1 {
                assert(g.drop_last()[j] == g[j]);
                assert(!f(g.drop_last()[j][i]));
            } else {
                assert(g[j] == g.last());
                assert(!f(g.last()@[i]));
            }
        }
    }
}




} // verus!
