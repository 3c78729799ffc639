//! The backtracking search: place an ordered list of pieces, each in any of
//! its rotational variants, so that they tile the field completely.
//!
//! The search is exhaustive and first-found-wins: for the next piece it
//! tries every field position in row-major order and every variant in
//! rotation order, recurses on each placement that fits, and returns the
//! first complete tiling. Its contract states both directions: a returned
//! grid is reached from the input by legal placements of exactly the given
//! pieces in order ([`reaches`]), and a `None` answer means no such
//! sequence of placements exists at all ([`solvable`]).

use vstd::prelude::*;

use crate::grid::{
    copy_figure, fits_in_field, is_full, is_rect, is_solved, lemma_place_dims, mask_fits_at,
    place_at, place_in_field, rows_view,
};
use crate::piece::{piece_masks, variant_count, Tetromino};
use crate::shape::Shape;

verus! {

/// The shapes of a sequence of pieces, in order.
pub open spec fn shapes_of(ts: Seq<Tetromino>) -> Seq<Shape> {
    ts.map_values(|t: Tetromino| t.shape())
}

/// Variant `k` of shape `s` may be placed on the field with its anchor at
/// `(i, j)`: the anchor is a field coordinate, `k` names one of the shape's
/// variants, and the variant fits there.
pub open spec fn step_ok(field: Seq<Seq<Option<Shape>>>, s: Shape, i: int, j: int, k: int) -> bool {
    &&& 0 <= i < field.len()
    &&& 0 <= j < field[0].len()
    &&& 0 <= k < piece_masks(s).len()
    &&& mask_fits_at(field, piece_masks(s)[k], i, j)
}

/// The field can be tiled completely by placing the given shapes in order,
/// each at some position and in some rotational variant.
pub open spec fn solvable(field: Seq<Seq<Option<Shape>>>, shapes: Seq<Shape>) -> bool
    decreases shapes.len(),
{
    if shapes.len() == 0 {
        is_full(field)
    } else {
        exists|i: int, j: int, k: int| #![trigger step_ok(field, shapes[0], i, j, k)]
            step_ok(field, shapes[0], i, j, k) && solvable(
                place_at(field, piece_masks(shapes[0])[k], i, j),
                shapes.drop_first(),
            )
    }
}

/// The grid `sol` is the result of placing the given shapes on the field in
/// order, each at some position and in some rotational variant, ending with
/// every cell occupied.
pub open spec fn reaches(
    field: Seq<Seq<Option<Shape>>>,
    shapes: Seq<Shape>,
    sol: Seq<Seq<Option<Shape>>>,
) -> bool
    decreases shapes.len(),
{
    if shapes.len() == 0 {
        sol == field && is_full(field)
    } else {
        exists|i: int, j: int, k: int| #![trigger step_ok(field, shapes[0], i, j, k)]
            step_ok(field, shapes[0], i, j, k) && reaches(
                place_at(field, piece_masks(shapes[0])[k], i, j),
                shapes.drop_first(),
                sol,
            )
    }
}

/// Placing variant `k` of shape `s` at `(i, j)` leads nowhere: either it
/// does not fit, or the rest of the pieces cannot finish the tiling from
/// the resulting grid.
spec fn tried_and_failed(
    field: Seq<Seq<Option<Shape>>>,
    s: Shape,
    rest: Seq<Shape>,
    i: int,
    j: int,
    k: int,
) -> bool {
    mask_fits_at(field, piece_masks(s)[k], i, j) ==> !solvable(
        place_at(field, piece_masks(s)[k], i, j),
        rest,
    )
}

/// A grid reached by placing pieces on a field is fully occupied, has the
/// same dimensions as the field, and leaves every occupied field cell
/// exactly as it was.
pub proof fn lemma_reaches_properties(
    field: Seq<Seq<Option<Shape>>>,
    shapes: Seq<Shape>,
    sol: Seq<Seq<Option<Shape>>>,
)
    requires
        reaches(field, shapes, sol),
    ensures
        is_full(sol),
        sol.len() == field.len(),
        forall|a: int| 0 <= a < field.len() ==> (#[trigger] sol[a]).len() == field[a].len(),
        forall|a: int, b: int| #![trigger field[a][b]]
            0 <= a < field.len() && 0 <= b < field[a].len() && field[a][b] is Some ==> sol[a][b]
                == field[a][b],
    decreases shapes.len(),
{
    if shapes.len() == 0 {
    } else {
        let (i, j, k) = choose|i: int, j: int, k: int| #![trigger step_ok(field, shapes[0], i, j, k)]
            step_ok(field, shapes[0], i, j, k) && reaches(
                place_at(field, piece_masks(shapes[0])[k], i, j),
                shapes.drop_first(),
                sol,
            );
        let fig = piece_masks(shapes[0])[k];
        let nf = place_at(field, fig, i, j);
        lemma_place_dims(field, fig, i, j);
        lemma_reaches_properties(nf, shapes.drop_first(), sol);
        assert forall|a: int, b: int| #![trigger field[a][b]]
            0 <= a < field.len() && 0 <= b < field[a].len() && field[a][b] is Some implies sol[a][b]
            == field[a][b] by {
            if crate::grid::covers(fig, i, j, a, b) {
                assert(fig[a - i][b - j] is Some);
                assert(crate::grid::cell_ok(field, i, j, a - i, b - j));
                assert(field[a][b] is None);
            }
            assert(nf[a][b] == field[a][b]);
            assert(nf[a].len() == field[a].len());
            assert(sol[a][b] == nf[a][b]);
        }
    }
}

/// A field from which the pieces reach some complete tiling is solvable
/// with those pieces.
pub proof fn lemma_reaches_solvable(
    field: Seq<Seq<Option<Shape>>>,
    shapes: Seq<Shape>,
    sol: Seq<Seq<Option<Shape>>>,
)
    requires
        reaches(field, shapes, sol),
    ensures
        solvable(field, shapes),
    decreases shapes.len(),
{
    if shapes.len() > 0 {
        let (i, j, k) = choose|i: int, j: int, k: int| #![trigger step_ok(field, shapes[0], i, j, k)]
            step_ok(field, shapes[0], i, j, k) && reaches(
                place_at(field, piece_masks(shapes[0])[k], i, j),
                shapes.drop_first(),
                sol,
            );
        lemma_reaches_solvable(
            place_at(field, piece_masks(shapes[0])[k], i, j),
            shapes.drop_first(),
            sol,
        );
    }
}

/// The search from piece `idx` on: try every position and variant of the
/// next piece on the given field, recurse on each placement that fits, and
/// return the first complete tiling, or `None` when none of the finitely
/// many placement sequences tiles the field.
#[verifier::loop_isolation(false)]
fn solve_from(
    field: &Vec<Vec<Option<Shape>>>,
    figures: &Vec<Tetromino>,
    idx: usize,
) -> (r: Option<Vec<Vec<Option<Shape>>>>)
    requires
        is_rect(rows_view(field@)),
        idx <= figures@.len(),
        forall|t: int| 0 <= t < figures@.len() ==> (#[trigger] figures@[t]).wf(),
    ensures
        match r {
            Some(sol) => reaches(
                rows_view(field@),
                shapes_of(figures@).skip(idx as int),
                rows_view(sol@),
            ),
            None => !solvable(rows_view(field@), shapes_of(figures@).skip(idx as int)),
        },
    decreases figures@.len() - idx,
{
    let ghost fv = rows_view(field@);
    let ghost shapes = shapes_of(figures@).skip(idx as int);
    if idx == figures.len() {
        if is_solved(field) {
            let sol = copy_figure(field);
            return Some(sol);
        } else {
            return None;
        }
    }
    let ghost s = figures@[idx as int].shape();
    let ghost rest = shapes_of(figures@).skip(idx as int + 1);
    proof {
        assert(shapes[0] == s);
        assert(shapes.drop_first() =~= rest);
    }
    let height = field.len();
    let width = if height > 0 {
        field[0].len()
    } else {
        0
    };
    let mut i: usize = 0;
    while i < height
        invariant
            i <= height,
            forall|a: int, b: int, c: int| #![trigger tried_and_failed(fv, s, rest, a, b, c)]
                0 <= a < i && 0 <= b < width && 0 <= c < variant_count(s)
                    ==> tried_and_failed(fv, s, rest, a, b, c),
        decreases height - i,
    {
        let mut j: usize = 0;
        while j < width
            invariant
                i < height,
                j <= width,
                forall|a: int, b: int, c: int| #![trigger tried_and_failed(fv, s, rest, a, b, c)]
                    0 <= a < i && 0 <= b < width && 0 <= c < variant_count(s)
                        ==> tried_and_failed(fv, s, rest, a, b, c),
                forall|b: int, c: int| #![trigger tried_and_failed(fv, s, rest, i as int, b, c)]
                    0 <= b < j && 0 <= c < variant_count(s)
                        ==> tried_and_failed(fv, s, rest, i as int, b, c),
            decreases width - j,
        {
            let vars = figures[idx].variants();
            let mut k: usize = 0;
            while k < vars.len()
                invariant
                    i < height,
                    j < width,
                    k <= vars@.len(),
                    vars@.len() == variant_count(s),
                    forall|c: int| 0 <= c < vars@.len() ==> rows_view(#[trigger] vars@[c]@)
                        == piece_masks(s)[c],
                    forall|b: int, c: int| #![trigger tried_and_failed(fv, s, rest, i as int, b, c)]
                        0 <= b < j && 0 <= c < variant_count(s)
                            ==> tried_and_failed(fv, s, rest, i as int, b, c),
                    forall|c: int| #![trigger tried_and_failed(fv, s, rest, i as int, j as int, c)]
                        0 <= c < k ==> tried_and_failed(fv, s, rest, i as int, j as int, c),
                decreases vars.len() - k,
            {
                if fits_in_field(field, &vars[k], i, j) {
                    let new_field = place_in_field(field, &vars[k], i, j);
                    proof {
                        lemma_place_dims(fv, piece_masks(s)[k as int], i as int, j as int);
                    }
                    match solve_from(&new_field, figures, idx + 1) {
                        Some(sol) => {
                            proof {
                                assert(step_ok(fv, shapes[0], i as int, j as int, k as int));
                                assert(reaches(
                                    place_at(fv, piece_masks(shapes[0])[k as int], i as int, j as int),
                                    shapes.drop_first(),
                                    rows_view(sol@),
                                ));
                                assert(reaches(fv, shapes, rows_view(sol@)));
                            }
                            return Some(sol);
                        },
                        None => {},
                    }
                }
                proof {
                    assert(tried_and_failed(fv, s, rest, i as int, j as int, k as int));
                }
                k = k + 1;
            }
            j = j + 1;
        }
        i = i + 1;
    }
    proof {
        if solvable(fv, shapes) {
            let (a, b, c) = choose|a: int, b: int, c: int| #![trigger step_ok(fv, shapes[0], a, b, c)]
                step_ok(fv, shapes[0], a, b, c) && solvable(
                    place_at(fv, piece_masks(shapes[0])[c], a, b),
                    shapes.drop_first(),
                );
            assert(tried_and_failed(fv, s, rest, a, b, c));
            assert(false);
        }
    }
    None
}

/// Search for a complete tiling of the field by the given pieces, placed in
/// order. Returns the first solution found, a new grid with every cell
/// occupied; the input field is never changed. Returns `None` exactly when
/// no sequence of placements of these pieces tiles the field.
pub fn solve(field: &Vec<Vec<Option<Shape>>>, figures: &Vec<Tetromino>) -> (r: Option<
    Vec<Vec<Option<Shape>>>,
>)
    requires
        is_rect(rows_view(field@)),
        forall|t: int| 0 <= t < figures@.len() ==> (#[trigger] figures@[t]).wf(),
    ensures
        match r {
            Some(sol) => {
                &&& reaches(rows_view(field@), shapes_of(figures@), rows_view(sol@))
                &&& solvable(rows_view(field@), shapes_of(figures@))
                &&& is_full(rows_view(sol@))
                &&& rows_view(sol@).len() == field@.len()
                &&& forall|a: int| 0 <= a < field@.len() ==> (#[trigger] rows_view(sol@)[a]).len()
                    == rows_view(field@)[a].len()
                &&& forall|a: int, b: int| #![trigger rows_view(field@)[a][b]]
                    0 <= a < field@.len() && 0 <= b < rows_view(field@)[a].len() && rows_view(
                        field@,
                    )[a][b] is Some ==> rows_view(sol@)[a][b] == rows_view(field@)[a][b]
            },
            None => !solvable(rows_view(field@), shapes_of(figures@)),
        },
{
    proof {
        assert(shapes_of(figures@).skip(0) =~= shapes_of(figures@));
    }
    let r = solve_from(field, figures, 0);
    match &r {
        Some(sol) => {
            proof {
                lemma_reaches_properties(rows_view(field@), shapes_of(figures@), rows_view(sol@));
                lemma_reaches_solvable(rows_view(field@), shapes_of(figures@), rows_view(sol@));
            }
        },
        None => {},
    }
    r
}

} // verus!
