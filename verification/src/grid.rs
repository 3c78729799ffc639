//! Grid geometry: rectangular arrays of cells, rotation, fit testing,
//! placement, and the completion test.
//!
//! A figure (a piece mask) and the board are both values of type
//! `Vec<Vec<Option<T>>>`: a cell is `None` when empty and `Some(label)` when
//! occupied. The mathematical model of such a value is a `Seq<Seq<Option<T>>>`
//! obtained with [`rows_view`].

use vstd::prelude::*;
use vstd::set_lib::{lemma_int_range, lemma_len_subset, lemma_map_size, set_int_range};

verus! {

/// The mathematical model of a two-dimensional array: the sequence of the
/// views of its rows.
pub open spec fn rows_view<T>(rows: Seq<Vec<Option<T>>>) -> Seq<Seq<Option<T>>> {
    rows.map_values(|r: Vec<Option<T>>| r@)
}

/// All rows have the same length as the first one.
pub open spec fn is_rect<T>(g: Seq<Seq<Option<T>>>) -> bool {
    forall|i: int| 0 <= i < g.len() ==> (#[trigger] g[i]).len() == g[0].len()
}

/// The grid cell that the occupied figure cell `(a, b)` would land on, when
/// the figure is anchored at `(r0, c0)`, is inside the grid and empty.
pub open spec fn cell_ok<T>(field: Seq<Seq<Option<T>>>, r0: int, c0: int, a: int, b: int) -> bool {
    &&& r0 + a < field.len()
    &&& c0 + b < field[0].len()
    &&& field[r0 + a][c0 + b] is None
}

/// The figure fits on the field when anchored at `(r0, c0)`: every occupied
/// figure cell lands on an in-bounds, empty field cell.
pub open spec fn mask_fits_at<T>(
    field: Seq<Seq<Option<T>>>,
    fig: Seq<Seq<Option<T>>>,
    r0: int,
    c0: int,
) -> bool {
    forall|a: int, b: int| #![trigger fig[a][b]]
        0 <= a < fig.len() && 0 <= b < fig[a].len() && fig[a][b] is Some ==> cell_ok(
            field,
            r0,
            c0,
            a,
            b,
        )
}

/// Field cell `(r, c)` is covered by an occupied cell of the figure anchored
/// at `(r0, c0)`.
pub open spec fn covers<T>(fig: Seq<Seq<Option<T>>>, r0: int, c0: int, r: int, c: int) -> bool {
    &&& r0 <= r < r0 + fig.len()
    &&& c0 <= c
    &&& c - c0 < fig[r - r0].len()
    &&& fig[r - r0][c - c0] is Some
}

/// The field with the figure written onto it at `(r0, c0)`: covered cells
/// take the figure's label, all other cells are unchanged.
pub open spec fn place_at<T>(
    field: Seq<Seq<Option<T>>>,
    fig: Seq<Seq<Option<T>>>,
    r0: int,
    c0: int,
) -> Seq<Seq<Option<T>>> {
    Seq::new(
        field.len(),
        |r: int|
            Seq::new(
                field[r].len(),
                |c: int|
                    if covers(fig, r0, c0, r, c) {
                        fig[r - r0][c - c0]
                    } else {
                        field[r][c]
                    },
            ),
    )
}

/// Placing a figure changes no dimension of the field.
pub proof fn lemma_place_dims<T>(field: Seq<Seq<Option<T>>>, fig: Seq<Seq<Option<T>>>, r0: int, c0: int)
    ensures
        place_at(field, fig, r0, c0).len() == field.len(),
        forall|r: int| 0 <= r < field.len() ==> (#[trigger] place_at(field, fig, r0, c0)[r]).len()
            == field[r].len(),
        is_rect(field) ==> is_rect(place_at(field, fig, r0, c0)),
{
    let p = place_at(field, fig, r0, c0);
    assert(forall|r: int| 0 <= r < field.len() ==> (#[trigger] p[r]).len() == field[r].len());
}

/// Every cell of the grid is occupied.
pub open spec fn is_full<T>(g: Seq<Seq<Option<T>>>) -> bool {
    forall|a: int, b: int| #![trigger g[a][b]]
        0 <= a < g.len() && 0 <= b < g[a].len() ==> g[a][b] is Some
}

/// The figure rotated a quarter turn clockwise: cell `(i, j)` of a figure of
/// `R` rows moves to cell `(j, R - 1 - i)` of the result.
pub open spec fn rotated<T>(g: Seq<Seq<Option<T>>>) -> Seq<Seq<Option<T>>> {
    Seq::new(g[0].len(), |r: int| Seq::new(g.len(), |c: int| g[g.len() - 1 - c][r]))
}

/// A rotated rectangular figure is again rectangular, with the two
/// dimensions exchanged, and holds the cells of the original figure.
pub proof fn lemma_rotated_shape<T>(g: Seq<Seq<Option<T>>>)
    requires
        g.len() > 0,
        g[0].len() > 0,
        is_rect(g),
    ensures
        rotated(g).len() == g[0].len(),
        rotated(g)[0].len() == g.len(),
        is_rect(rotated(g)),
        forall|r: int, c: int| #![trigger rotated(g)[r][c]]
            0 <= r < g[0].len() && 0 <= c < g.len() ==> rotated(g)[r][c] == g[g.len() - 1 - c][r],
{
    assert(forall|r: int| 0 <= r < rotated(g).len() ==> (#[trigger] rotated(g)[r]).len()
        == g.len());
}

/// Rotate a figure a quarter turn clockwise, producing a new figure; the
/// input is never changed.
pub fn rotate<T: Copy>(figure: &Vec<Vec<Option<T>>>) -> (r: Vec<Vec<Option<T>>>)
    requires
        figure@.len() > 0,
        is_rect(rows_view(figure@)),
    ensures
        rows_view(r@) == rotated(rows_view(figure@)),
{
    let ghost gv = rows_view(figure@);
    let rows = figure.len();
    let cols = figure[0].len();
    let mut out: Vec<Vec<Option<T>>> = Vec::new();
    let mut r: usize = 0;
    while r < cols
        invariant
            r <= cols,
            rows == gv.len(),
            cols == gv[0].len(),
            gv == rows_view(figure@),
            gv.len() > 0,
            is_rect(gv),
            out@.len() == r,
            forall|a: int| 0 <= a < r ==> rows_view(out@)[a] == rotated(gv)[a],
        decreases cols - r,
    {
        let mut row: Vec<Option<T>> = Vec::new();
        let mut c: usize = 0;
        while c < rows
            invariant
                c <= rows,
                r < cols,
                rows == gv.len(),
                cols == gv[0].len(),
                gv == rows_view(figure@),
                gv.len() > 0,
                is_rect(gv),
                row@.len() == c,
                forall|b: int| 0 <= b < c ==> row@[b] == gv[rows - 1 - b][r as int],
            decreases rows - c,
        {
            assert(gv[rows - 1 - c].len() == cols);
            row.push(figure[rows - 1 - c][r]);
            c = c + 1;
        }
        proof {
            assert(row@ =~= rotated(gv)[r as int]);
        }
        out.push(row);
        r = r + 1;
    }
    proof {
        assert(rows_view(out@) =~~= rotated(gv));
    }
    out
}

/// Whether the figure fits on the field when anchored at
/// `(start_row, start_col)`: no occupied figure cell may fall outside the
/// field or on an already occupied field cell.
pub fn fits_in_field<T>(
    field: &Vec<Vec<Option<T>>>,
    figure: &Vec<Vec<Option<T>>>,
    start_row: usize,
    start_col: usize,
) -> (r: bool)
    requires
        is_rect(rows_view(field@)),
    ensures
        r == mask_fits_at(rows_view(field@), rows_view(figure@), start_row as int, start_col as int),
{
    let ghost fv = rows_view(field@);
    let ghost mv = rows_view(figure@);
    let mut i: usize = 0;
    while i < figure.len()
        invariant
            i <= mv.len(),
            fv == rows_view(field@),
            mv == rows_view(figure@),
            is_rect(fv),
            forall|a: int, b: int| #![trigger mv[a][b]]
                0 <= a < i && 0 <= b < mv[a].len() && mv[a][b] is Some ==> cell_ok(
                    fv,
                    start_row as int,
                    start_col as int,
                    a,
                    b,
                ),
        decreases figure.len() - i,
    {
        let mut j: usize = 0;
        while j < figure[i].len()
            invariant
                i < mv.len(),
                j <= mv[i as int].len(),
                fv == rows_view(field@),
                mv == rows_view(figure@),
                is_rect(fv),
                forall|a: int, b: int| #![trigger mv[a][b]]
                    0 <= a < i && 0 <= b < mv[a].len() && mv[a][b] is Some ==> cell_ok(
                        fv,
                        start_row as int,
                        start_col as int,
                        a,
                        b,
                    ),
                forall|b: int| #![trigger mv[i as int][b]]
                    0 <= b < j && mv[i as int][b] is Some ==> cell_ok(
                        fv,
                        start_row as int,
                        start_col as int,
                        i as int,
                        b,
                    ),
            decreases figure[i as int].len() - j,
        {
            if figure[i][j].is_some() {
                if start_row >= field.len() || i >= field.len() - start_row {
                    assert(!cell_ok(fv, start_row as int, start_col as int, i as int, j as int));
                    return false;
                }
                let width = field[0].len();
                if start_col >= width || j >= width - start_col {
                    assert(!cell_ok(fv, start_row as int, start_col as int, i as int, j as int));
                    return false;
                }
                assert(fv[start_row + i].len() == fv[0].len());
                if field[start_row + i][start_col + j].is_some() {
                    assert(!cell_ok(fv, start_row as int, start_col as int, i as int, j as int));
                    return false;
                }
            }
            j = j + 1;
        }
        i = i + 1;
    }
    true
}

/// The field with the figure written onto it at `(start_row, start_col)`,
/// as a new value; the input field is never changed. The caller must have
/// established that the figure fits there.
pub fn place_in_field<T: Copy>(
    field: &Vec<Vec<Option<T>>>,
    figure: &Vec<Vec<Option<T>>>,
    start_row: usize,
    start_col: usize,
) -> (r: Vec<Vec<Option<T>>>)
    requires
        is_rect(rows_view(field@)),
        mask_fits_at(rows_view(field@), rows_view(figure@), start_row as int, start_col as int),
    ensures
        rows_view(r@) == place_at(
            rows_view(field@),
            rows_view(figure@),
            start_row as int,
            start_col as int,
        ),
{
    let ghost fv = rows_view(field@);
    let ghost mv = rows_view(figure@);
    let ghost target = place_at(fv, mv, start_row as int, start_col as int);
    let mut out: Vec<Vec<Option<T>>> = Vec::new();
    let mut r: usize = 0;
    while r < field.len()
        invariant
            r <= fv.len(),
            fv == rows_view(field@),
            mv == rows_view(figure@),
            is_rect(fv),
            mask_fits_at(fv, mv, start_row as int, start_col as int),
            target == place_at(fv, mv, start_row as int, start_col as int),
            out@.len() == r,
            forall|a: int| 0 <= a < r ==> rows_view(out@)[a] == target[a],
        decreases field.len() - r,
    {
        let mut row: Vec<Option<T>> = Vec::new();
        let mut c: usize = 0;
        while c < field[r].len()
            invariant
                r < fv.len(),
                c <= fv[r as int].len(),
                fv == rows_view(field@),
                mv == rows_view(figure@),
                is_rect(fv),
                mask_fits_at(fv, mv, start_row as int, start_col as int),
                target == place_at(fv, mv, start_row as int, start_col as int),
                row@.len() == c,
                forall|b: int| 0 <= b < c ==> row@[b] == target[r as int][b],
            decreases field[r as int].len() - c,
        {
            let cell = if r >= start_row && r - start_row < figure.len() && c >= start_col && c
                - start_col < figure[r - start_row].len() && figure[r - start_row][c
                - start_col].is_some() {
                figure[r - start_row][c - start_col]
            } else {
                field[r][c]
            };
            proof {
                assert(cell == target[r as int][c as int]);
            }
            row.push(cell);
            c = c + 1;
        }
        proof {
            assert(row@ =~= target[r as int]);
        }
        out.push(row);
        r = r + 1;
    }
    proof {
        assert(rows_view(out@) =~~= target);
    }
    out
}

/// Whether every cell of the field is occupied.
pub fn is_solved<T>(field: &Vec<Vec<Option<T>>>) -> (r: bool)
    ensures
        r == is_full(rows_view(field@)),
{
    let ghost fv = rows_view(field@);
    let mut i: usize = 0;
    while i < field.len()
        invariant
            i <= fv.len(),
            fv == rows_view(field@),
            forall|a: int, b: int| #![trigger fv[a][b]]
                0 <= a < i && 0 <= b < fv[a].len() ==> fv[a][b] is Some,
        decreases field.len() - i,
    {
        let mut j: usize = 0;
        while j < field[i].len()
            invariant
                i < fv.len(),
                j <= fv[i as int].len(),
                fv == rows_view(field@),
                forall|a: int, b: int| #![trigger fv[a][b]]
                    0 <= a < i && 0 <= b < fv[a].len() ==> fv[a][b] is Some,
                forall|b: int| #![trigger fv[i as int][b]]
                    0 <= b < j ==> fv[i as int][b] is Some,
            decreases field[i as int].len() - j,
        {
            if field[i][j].is_none() {
                return false;
            }
            j = j + 1;
        }
        i = i + 1;
    }
    true
}

/// The set of coordinates of the occupied cells of a grid.
pub open spec fn occ_set<T>(g: Seq<Seq<Option<T>>>) -> Set<(int, int)> {
    Set::new(
        |p: (int, int)| 0 <= p.0 < g.len() && 0 <= p.1 < g[p.0].len() && g[p.0][p.1] is Some,
    )
}

/// How many cells of a grid are occupied.
pub open spec fn area<T>(g: Seq<Seq<Option<T>>>) -> nat {
    occ_set(g).len()
}

/// The occupied cells of the first `n` rows of a grid.
spec fn occ_upto<T>(g: Seq<Seq<Option<T>>>, n: int) -> Set<(int, int)> {
    Set::new(
        |p: (int, int)| 0 <= p.0 < n && p.0 < g.len() && 0 <= p.1 < g[p.0].len() && g[p.0][p.1]
            is Some,
    )
}

proof fn lemma_occ_upto_finite<T>(g: Seq<Seq<Option<T>>>, n: int)
    requires
        n >= 0,
    ensures
        occ_upto(g, n).finite(),
    decreases n,
{
    if n == 0 {
        assert(occ_upto(g, 0) =~= Set::<(int, int)>::empty());
    } else {
        lemma_occ_upto_finite(g, n - 1);
        if n - 1 >= g.len() {
            assert(occ_upto(g, n) =~= occ_upto(g, n - 1));
        } else {
            let w = g[n - 1].len() as int;
            let js = Set::new(|j: int| 0 <= j < w && g[n - 1][j] is Some);
            lemma_int_range(0, w);
            lemma_len_subset(js, set_int_range(0, w));
            let f = |j: int| (n - 1, j);
            js.lemma_map_finite(f);
            assert forall|p: (int, int)| #[trigger] occ_upto(g, n).contains(p) implies occ_upto(
                g,
                n - 1,
            ).union(js.map(f)).contains(p) by {
                if p.0 == n - 1 {
                    assert(js.contains(p.1) && f(p.1) == p);
                    assert(js.map(f).contains(p));
                }
            }
            assert(occ_upto(g, n) =~= occ_upto(g, n - 1).union(js.map(f)));
        }
    }
}

/// The set of occupied cells of a grid is finite.
pub proof fn lemma_occ_set_finite<T>(g: Seq<Seq<Option<T>>>)
    ensures
        occ_set(g).finite(),
{
    lemma_occ_upto_finite(g, g.len() as int);
    assert(occ_set(g) =~= occ_upto(g, g.len() as int));
}

/// Rotating a rectangular figure moves its occupied cells one to one:
/// the count of occupied cells is unchanged.
pub proof fn lemma_rotated_area<T>(g: Seq<Seq<Option<T>>>)
    requires
        g.len() > 0,
        g[0].len() > 0,
        is_rect(g),
    ensures
        area(rotated(g)) == area(g),
{
    let rows = g.len() as int;
    let cols = g[0].len() as int;
    let rg = rotated(g);
    let f = |p: (int, int)| (p.1, rows - 1 - p.0);
    lemma_occ_set_finite(g);
    lemma_rotated_shape(g);
    assert forall|q: (int, int)| #[trigger] occ_set(g).map(f).contains(q) implies occ_set(
        rg,
    ).contains(q) by {
        let p = choose|p: (int, int)| occ_set(g).contains(p) && q == f(p);
        assert(g[p.0].len() == cols);
        assert(rg[p.1][rows - 1 - p.0] == g[p.0][p.1]);
        assert(rg[q.0].len() == rows);
    }
    assert forall|q: (int, int)| #[trigger] occ_set(rg).contains(q) implies occ_set(g).map(
        f,
    ).contains(q) by {
        let p = (rows - 1 - q.1, q.0);
        assert(rg[q.0][q.1] == g[rows - 1 - q.1][q.0]);
        assert(g[p.0].len() == cols);
        assert(occ_set(g).contains(p) && q == f(p));
    }
    assert(occ_set(g).map(f) =~= occ_set(rg));
    lemma_map_size(occ_set(g), occ_set(rg), f);
}

/// Rotating a rectangular figure four times yields the original figure.
pub proof fn lemma_rotate_cycle<T>(g: Seq<Seq<Option<T>>>)
    requires
        g.len() > 0,
        g[0].len() > 0,
        is_rect(g),
    ensures
        rotated(rotated(rotated(rotated(g)))) == g,
{
    let g1 = rotated(g);
    let g2 = rotated(g1);
    let g3 = rotated(g2);
    let g4 = rotated(g3);
    lemma_rotated_shape(g);
    lemma_rotated_shape(g1);
    lemma_rotated_shape(g2);
    lemma_rotated_shape(g3);
    assert forall|r: int| 0 <= r < g.len() implies #[trigger] g4[r] =~= g[r] by {
        assert(g4[r].len() == g[r].len());
        assert forall|c: int| 0 <= c < g[0].len() implies #[trigger] g4[r][c] == g[r][c] by {
            let rows = g.len() as int;
            let cols = g[0].len() as int;
            assert(g4[r][c] == g3[cols - 1 - c][r]);
            assert(g3[cols - 1 - c][r] == g2[rows - 1 - r][cols - 1 - c]);
            assert(g2[rows - 1 - r][cols - 1 - c] == g1[c][rows - 1 - r]);
            assert(g1[c][rows - 1 - r] == g[r][c]);
        }
    }
    assert(g4 =~~= g);
}

/// What placing a figure that fits does to the field: every occupied figure
/// cell lands with its label on a previously empty field cell, every other
/// field cell is unchanged, and the same figure no longer fits at the same
/// anchor (the cells it would need are now occupied).
pub proof fn lemma_place_effect<T>(
    field: Seq<Seq<Option<T>>>,
    fig: Seq<Seq<Option<T>>>,
    r0: int,
    c0: int,
)
    requires
        is_rect(field),
        0 <= r0,
        0 <= c0,
        mask_fits_at(field, fig, r0, c0),
    ensures
        forall|a: int, b: int| #![trigger fig[a][b]]
            0 <= a < fig.len() && 0 <= b < fig[a].len() && fig[a][b] is Some ==> {
                &&& field[r0 + a][c0 + b] is None
                &&& place_at(field, fig, r0, c0)[r0 + a][c0 + b] == fig[a][b]
            },
        forall|r: int, c: int| #![trigger place_at(field, fig, r0, c0)[r][c]]
            0 <= r < field.len() && 0 <= c < field[r].len() && !covers(fig, r0, c0, r, c)
                ==> place_at(field, fig, r0, c0)[r][c] == field[r][c],
        (exists|a: int, b: int| #![trigger fig[a][b]]
            0 <= a < fig.len() && 0 <= b < fig[a].len() && fig[a][b] is Some)
            ==> !mask_fits_at(place_at(field, fig, r0, c0), fig, r0, c0),
{
    let p = place_at(field, fig, r0, c0);
    lemma_place_dims(field, fig, r0, c0);
    assert forall|a: int, b: int| #![trigger fig[a][b]]
        0 <= a < fig.len() && 0 <= b < fig[a].len() && fig[a][b] is Some implies {
        &&& field[r0 + a][c0 + b] is None
        &&& p[r0 + a][c0 + b] == fig[a][b]
    } by {
        assert(cell_ok(field, r0, c0, a, b));
        assert(field[r0 + a].len() == field[0].len());
        assert(covers(fig, r0, c0, r0 + a, c0 + b));
        assert(p[r0 + a][c0 + b] == fig[a][b]);
    }
    if exists|a: int, b: int| #![trigger fig[a][b]]
        0 <= a < fig.len() && 0 <= b < fig[a].len() && fig[a][b] is Some {
        let (a, b) = choose|a: int, b: int| #![trigger fig[a][b]]
            0 <= a < fig.len() && 0 <= b < fig[a].len() && fig[a][b] is Some;
        assert(p[r0 + a][c0 + b] is Some);
        assert(!cell_ok(p, r0, c0, a, b));
        assert(!mask_fits_at(p, fig, r0, c0));
    }
}

/// A fresh copy of a figure or field, cell for cell.
pub fn copy_figure<T: Copy>(figure: &Vec<Vec<Option<T>>>) -> (r: Vec<Vec<Option<T>>>)
    ensures
        rows_view(r@) == rows_view(figure@),
        r@.len() == figure@.len(),
{
    let mut out: Vec<Vec<Option<T>>> = Vec::new();
    let mut i: usize = 0;
    while i < figure.len()
        invariant
            i <= figure@.len(),
            out@.len() == i,
            forall|a: int| 0 <= a < i ==> rows_view(out@)[a] == rows_view(figure@)[a],
        decreases figure.len() - i,
    {
        let mut row: Vec<Option<T>> = Vec::new();
        let mut j: usize = 0;
        while j < figure[i].len()
            invariant
                i < figure@.len(),
                j <= figure@[i as int]@.len(),
                row@.len() == j,
                forall|b: int| 0 <= b < j ==> row@[b] == figure@[i as int]@[b],
            decreases figure[i as int].len() - j,
        {
            row.push(figure[i][j]);
            j = j + 1;
        }
        proof {
            assert(row@ =~= rows_view(figure@)[i as int]);
        }
        out.push(row);
        i = i + 1;
    }
    proof {
        assert(rows_view(out@) =~~= rows_view(figure@));
    }
    out
}

} // verus!
