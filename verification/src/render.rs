//! Textual rendering of a figure or field: one character per cell, the
//! shape's letter for an occupied cell and a space for an empty one, each
//! row ended by a newline.

use vstd::prelude::*;

use crate::grid::rows_view;
use crate::shape::{letter_of, Shape};

verus! {

/// The character that renders one cell.
pub open spec fn render_cell(c: Option<Shape>) -> char {
    match c {
        Some(s) => letter_of(s),
        None => ' ',
    }
}

/// The characters that render one row: one per cell, then a newline.
pub open spec fn render_row(row: Seq<Option<Shape>>) -> Seq<char> {
    Seq::new(row.len(), |b: int| render_cell(row[b])).push('\n')
}

/// The characters that render a whole grid, row by row.
pub open spec fn render_rows(g: Seq<Seq<Option<Shape>>>) -> Seq<char>
    decreases g.len(),
{
    if g.len() == 0 {
        Seq::empty()
    } else {
        render_rows(g.drop_last()) + render_row(g.last())
    }
}

/// Render a figure or field as characters: the shape letter for each
/// occupied cell, a space for each empty cell, and a newline after each
/// row.
pub fn render_figure(figure: &Vec<Vec<Option<Shape>>>) -> (r: Vec<char>)
    ensures
        r@ == render_rows(rows_view(figure@)),
{
    let ghost fv = rows_view(figure@);
    let mut out: Vec<char> = Vec::new();
    let mut i: usize = 0;
    while i < figure.len()
        invariant
            i <= fv.len(),
            fv == rows_view(figure@),
            out@ == render_rows(fv.take(i as int)),
        decreases figure.len() - i,
    {
        let ghost row = fv[i as int];
        let mut j: usize = 0;
        while j < figure[i].len()
            invariant
                i < fv.len(),
                j <= row.len(),
                fv == rows_view(figure@),
                row == fv[i as int],
                out@ == render_rows(fv.take(i as int)) + Seq::new(j as nat, |b: int| render_cell(row[b])),
            decreases figure[i as int].len() - j,
        {
            let c = match figure[i][j] {
                Some(s) => s.letter(),
                None => ' ',
            };
            out.push(c);
            proof {
                assert(out@ =~= render_rows(fv.take(i as int)) + Seq::new(
                    (j + 1) as nat,
                    |b: int| render_cell(row[b]),
                ));
            }
            j = j + 1;
        }
        out.push('\n');
        proof {
            assert(fv.take(i + 1).drop_last() =~= fv.take(i as int));
            assert(fv.take(i + 1).last() == row);
            assert(out@ =~= render_rows(fv.take(i + 1)));
        }
        i = i + 1;
    }
    proof {
        assert(fv.take(fv.len() as int) =~= fv);
    }
    out
}

} // verus!
