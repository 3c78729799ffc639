//! A tetromino piece: a shape together with its canonical figure, and the
//! generation of its distinct rotational variants.

use vstd::prelude::*;

use crate::grid::{
    area, copy_figure, is_rect, lemma_rotated_area, lemma_rotated_shape, rotate, rotated,
    rows_view,
};
use crate::shape::{canonical, Shape};

verus! {

/// The figure of `s` rotated clockwise `k` quarter turns.
pub open spec fn rotations_of(m: Seq<Seq<Option<Shape>>>, k: nat) -> Seq<Seq<Option<Shape>>>
    decreases k,
{
    if k == 0 {
        m
    } else {
        rotated(rotations_of(m, (k - 1) as nat))
    }
}

/// How many distinct rotational variants a shape has: the fully symmetric
/// square has one, the two-fold symmetric shapes have two, the rest four.
pub open spec fn variant_count(s: Shape) -> nat {
    match s {
        Shape::O => 1,
        Shape::I | Shape::S | Shape::Z => 2,
        _ => 4,
    }
}

/// The ordered rotational variants of a shape's figure: the canonical
/// figure, then each further quarter turn, `variant_count` in all.
pub open spec fn piece_masks(s: Shape) -> Seq<Seq<Seq<Option<Shape>>>> {
    Seq::new(variant_count(s), |k: int| rotations_of(canonical(s), k as nat))
}

/// The canonical figure of every shape is rectangular and has at least one
/// row and one column.
pub proof fn lemma_canonical_wf(s: Shape)
    ensures
        canonical(s).len() > 0,
        canonical(s)[0].len() > 0,
        is_rect(canonical(s)),
{
    match s {
        Shape::I => {
            assert(is_rect(canonical(s)));
        },
        Shape::J => {
            assert(is_rect(canonical(s)));
        },
        Shape::L => {
            assert(is_rect(canonical(s)));
        },
        Shape::O => {
            assert(is_rect(canonical(s)));
        },
        Shape::S => {
            assert(is_rect(canonical(s)));
        },
        Shape::T => {
            assert(is_rect(canonical(s)));
        },
        Shape::Z => {
            assert(is_rect(canonical(s)));
        },
    }
}

/// Every rotation of a rectangular, non-empty figure is rectangular and
/// non-empty.
pub proof fn lemma_rotations_wf(m: Seq<Seq<Option<Shape>>>, k: nat)
    requires
        m.len() > 0,
        m[0].len() > 0,
        is_rect(m),
    ensures
        rotations_of(m, k).len() > 0,
        rotations_of(m, k)[0].len() > 0,
        is_rect(rotations_of(m, k)),
    decreases k,
{
    if k > 0 {
        lemma_rotations_wf(m, (k - 1) as nat);
        lemma_rotated_shape(rotations_of(m, (k - 1) as nat));
    }
}

/// Rotating a rectangular, non-empty figure any number of quarter turns
/// keeps its count of occupied cells.
proof fn lemma_rotations_area(m: Seq<Seq<Option<Shape>>>, k: nat)
    requires
        m.len() > 0,
        m[0].len() > 0,
        is_rect(m),
    ensures
        area(rotations_of(m, k)) == area(m),
    decreases k,
{
    if k > 0 {
        lemma_rotations_area(m, (k - 1) as nat);
        lemma_rotations_wf(m, (k - 1) as nat);
        lemma_rotated_area(rotations_of(m, (k - 1) as nat));
    }
}

/// Rotation invariance of area: every rotational variant of a shape has
/// the same count of occupied cells as the shape's canonical figure.
pub proof fn lemma_variant_area(s: Shape, k: int)
    requires
        0 <= k < variant_count(s),
    ensures
        area(piece_masks(s)[k]) == area(canonical(s)),
{
    lemma_canonical_wf(s);
    lemma_rotations_area(canonical(s), k as nat);
}

/// A piece: one of the seven shapes, together with its canonical figure.
pub struct Tetromino {
    figure: Vec<Vec<Option<Shape>>>,
    shape: Shape,
}

impl Tetromino {
    /// The shape this piece was built from.
    pub closed spec fn shape(self) -> Shape {
        self.shape
    }

    /// The piece's stored figure is exactly the canonical figure of its
    /// shape.
    pub closed spec fn wf(self) -> bool {
        rows_view(self.figure@) == canonical(self.shape)
    }

    /// A piece of the given shape, carrying the shape's canonical figure.
    pub fn new(shape: Shape) -> (r: Tetromino)
        ensures
            r.wf(),
            r.shape() == shape,
    {
        let figure: Vec<Vec<Option<Shape>>> = match shape {
            Shape::I => {
                let mut m: Vec<Vec<Option<Shape>>> = Vec::new();
                m.push(row1(Some(shape)));
                m.push(row1(Some(shape)));
                m.push(row1(Some(shape)));
                m.push(row1(Some(shape)));
                m
            },
            Shape::J => {
                let mut m: Vec<Vec<Option<Shape>>> = Vec::new();
                m.push(row3(Some(shape), Some(shape), Some(shape)));
                m.push(row3(None, None, Some(shape)));
                m
            },
            Shape::L => {
                let mut m: Vec<Vec<Option<Shape>>> = Vec::new();
                m.push(row3(Some(shape), Some(shape), Some(shape)));
                m.push(row3(Some(shape), None, None));
                m
            },
            Shape::O => {
                let mut m: Vec<Vec<Option<Shape>>> = Vec::new();
                m.push(row2(Some(shape), Some(shape)));
                m.push(row2(Some(shape), Some(shape)));
                m
            },
            Shape::S => {
                let mut m: Vec<Vec<Option<Shape>>> = Vec::new();
                m.push(row3(None, Some(shape), Some(shape)));
                m.push(row3(Some(shape), Some(shape), None));
                m
            },
            Shape::T => {
                let mut m: Vec<Vec<Option<Shape>>> = Vec::new();
                m.push(row3(Some(shape), Some(shape), Some(shape)));
                m.push(row3(None, Some(shape), None));
                m
            },
            Shape::Z => {
                let mut m: Vec<Vec<Option<Shape>>> = Vec::new();
                m.push(row3(Some(shape), Some(shape), None));
                m.push(row3(None, Some(shape), Some(shape)));
                m
            },
        };
        proof {
            assert(rows_view(figure@) =~~= canonical(shape));
        }
        Tetromino { figure, shape }
    }

    /// The distinct rotational variants of this piece's figure, in rotation
    /// order: the canonical figure first, then each further quarter turn.
    pub fn variants(&self) -> (r: Vec<Vec<Vec<Option<Shape>>>>)
        requires
            self.wf(),
        ensures
            r@.len() == variant_count(self.shape()) as int,
            forall|k: int| 0 <= k < r@.len() ==> rows_view(r@[k]@) == piece_masks(self.shape())[k],
    {
        let ghost s = self.shape;
        proof {
            lemma_canonical_wf(s);
        }
        let number_of_rotations: usize = match self.shape {
            Shape::O => 1,
            Shape::S | Shape::Z | Shape::I => 2,
            _ => 4,
        };
        let mut rotations: Vec<Vec<Vec<Option<Shape>>>> = Vec::new();
        rotations.push(copy_figure(&self.figure));
        let mut figure = copy_figure(&self.figure);
        let mut t: usize = 1;
        while t < number_of_rotations
            invariant
                1 <= t <= number_of_rotations,
                number_of_rotations == variant_count(s),
                self.wf(),
                s == self.shape(),
                rotations@.len() == t,
                rows_view(figure@) == rotations_of(canonical(s), (t - 1) as nat),
                forall|k: int| 0 <= k < t ==> rows_view(rotations@[k]@) == piece_masks(s)[k],
            decreases number_of_rotations - t,
        {
            proof {
                lemma_rotations_wf(canonical(s), (t - 1) as nat);
            }
            figure = rotate(&figure);
            rotations.push(copy_figure(&figure));
            t = t + 1;
        }
        rotations
    }
}

/// The models of a list of figures.
pub open spec fn figures_view(fs: Seq<Vec<Vec<Option<Shape>>>>) -> Seq<Seq<Seq<Option<Shape>>>> {
    fs.map_values(|f: Vec<Vec<Option<Shape>>>| rows_view(f@))
}

/// Some rotation of the figure `m` (including `m` itself) already stands in
/// `kept`.
pub open spec fn has_rotation_in(
    kept: Seq<Seq<Seq<Option<Shape>>>>,
    m: Seq<Seq<Option<Shape>>>,
) -> bool {
    ||| kept.contains(m)
    ||| kept.contains(rotated(m))
    ||| kept.contains(rotated(rotated(m)))
    ||| kept.contains(rotated(rotated(rotated(m))))
}

/// Walk the figures front to back, keeping each one unless some rotation of
/// it was already kept.
pub open spec fn dedup_from(
    kept: Seq<Seq<Seq<Option<Shape>>>>,
    figs: Seq<Seq<Seq<Option<Shape>>>>,
) -> Seq<Seq<Seq<Option<Shape>>>>
    decreases figs.len(),
{
    if figs.len() == 0 {
        kept
    } else if has_rotation_in(kept, figs[0]) {
        dedup_from(kept, figs.drop_first())
    } else {
        dedup_from(kept.push(figs[0]), figs.drop_first())
    }
}

/// Whether two figures hold the same cells.
fn same_figure(a: &Vec<Vec<Option<Shape>>>, b: &Vec<Vec<Option<Shape>>>) -> (r: bool)
    ensures
        r == (rows_view(a@) == rows_view(b@)),
{
    let ghost av = rows_view(a@);
    let ghost bv = rows_view(b@);
    if a.len() != b.len() {
        return false;
    }
    let mut i: usize = 0;
    while i < a.len()
        invariant
            i <= av.len(),
            av == rows_view(a@),
            bv == rows_view(b@),
            av.len() == bv.len(),
            forall|t: int| 0 <= t < i ==> av[t] == bv[t],
        decreases a.len() - i,
    {
        if a[i].len() != b[i].len() {
            proof {
                assert(av[i as int].len() != bv[i as int].len());
                assert(av != bv);
            }
            return false;
        }
        let mut j: usize = 0;
        while j < a[i].len()
            invariant
                i < av.len(),
                j <= av[i as int].len(),
                av == rows_view(a@),
                bv == rows_view(b@),
                av.len() == bv.len(),
                av[i as int].len() == bv[i as int].len(),
                forall|u: int| 0 <= u < j ==> av[i as int][u] == bv[i as int][u],
            decreases a[i as int].len() - j,
        {
            let same = match (a[i][j], b[i][j]) {
                (None, None) => true,
                (Some(x), Some(y)) => x == y,
                _ => false,
            };
            if !same {
                return false;
            }
            j = j + 1;
        }
        proof {
            assert(av[i as int] =~= bv[i as int]);
        }
        i = i + 1;
    }
    proof {
        assert(av =~~= bv);
    }
    true
}

/// Whether some figure in `kept` holds the same cells as `needle`.
fn contains_figure(kept: &Vec<Vec<Vec<Option<Shape>>>>, needle: &Vec<Vec<Option<Shape>>>) -> (r:
    bool)
    ensures
        r == figures_view(kept@).contains(rows_view(needle@)),
{
    let ghost kv = figures_view(kept@);
    let mut e: usize = 0;
    while e < kept.len()
        invariant
            e <= kv.len(),
            kv == figures_view(kept@),
            forall|t: int| 0 <= t < e ==> kv[t] != rows_view(needle@),
        decreases kept.len() - e,
    {
        if same_figure(&kept[e], needle) {
            proof {
                assert(kv[e as int] == rows_view(needle@));
            }
            return true;
        }
        e = e + 1;
    }
    proof {
        assert(!kv.contains(rows_view(needle@)));
    }
    false
}

/// Keep only the first of every group of figures that coincide up to
/// rotation: a figure is dropped when it, or one of its quarter-turn
/// rotations, was already kept.
pub fn remove_duplicates_and_rotations(figures: Vec<Vec<Vec<Option<Shape>>>>) -> (r: Vec<
    Vec<Vec<Option<Shape>>>,
>)
    requires
        forall|t: int| #![trigger figures@[t]]
            0 <= t < figures@.len() ==> {
                &&& rows_view(figures@[t]@).len() > 0
                &&& rows_view(figures@[t]@)[0].len() > 0
                &&& is_rect(rows_view(figures@[t]@))
            },
    ensures
        figures_view(r@) == dedup_from(Seq::empty(), figures_view(figures@)),
{
    let ghost fv = figures_view(figures@);
    let mut result: Vec<Vec<Vec<Option<Shape>>>> = Vec::new();
    proof {
        assert(figures_view(result@) =~= Seq::<Seq<Seq<Option<Shape>>>>::empty());
        assert(fv.skip(0) =~= fv);
    }
    let mut i: usize = 0;
    while i < figures.len()
        invariant
            i <= fv.len(),
            fv == figures_view(figures@),
            forall|t: int| #![trigger figures@[t]]
                0 <= t < figures@.len() ==> {
                    &&& rows_view(figures@[t]@).len() > 0
                    &&& rows_view(figures@[t]@)[0].len() > 0
                    &&& is_rect(rows_view(figures@[t]@))
                },
            dedup_from(figures_view(result@), fv.skip(i as int)) == dedup_from(
                Seq::empty(),
                fv,
            ),
        decreases figures.len() - i,
    {
        let ghost m = fv[i as int];
        proof {
            lemma_rotated_shape(m);
            lemma_rotated_shape(rotated(m));
        }
        let figure = &figures[i];
        let r1 = rotate(figure);
        let r2 = rotate(&r1);
        let r3 = rotate(&r2);
        let duplicate = contains_figure(&result, figure) || contains_figure(&result, &r1)
            || contains_figure(&result, &r2) || contains_figure(&result, &r3);
        let ghost old_kept = figures_view(result@);
        proof {
            assert(duplicate == has_rotation_in(old_kept, m));
            assert(fv.skip(i as int).drop_first() =~= fv.skip(i as int + 1));
            assert(fv.skip(i as int)[0] == m);
        }
        if !duplicate {
            let kept = copy_figure(figure);
            result.push(kept);
            proof {
                assert(figures_view(result@) =~= old_kept.push(m));
            }
        }
        proof {
            assert(dedup_from(figures_view(result@), fv.skip(i as int + 1)) == dedup_from(
                Seq::empty(),
                fv,
            ));
        }
        i = i + 1;
    }
    proof {
        assert(fv.skip(fv.len() as int) =~= Seq::<Seq<Seq<Option<Shape>>>>::empty());
    }
    result
}

/// A one-cell figure row.
fn row1(a: Option<Shape>) -> (r: Vec<Option<Shape>>)
    ensures
        r@ == seq![a],
{
    let mut v: Vec<Option<Shape>> = Vec::new();
    v.push(a);
    proof {
        assert(v@ =~= seq![a]);
    }
    v
}

/// A two-cell figure row.
fn row2(a: Option<Shape>, b: Option<Shape>) -> (r: Vec<Option<Shape>>)
    ensures
        r@ == seq![a, b],
{
    let mut v: Vec<Option<Shape>> = Vec::new();
    v.push(a);
    v.push(b);
    proof {
        assert(v@ =~= seq![a, b]);
    }
    v
}

/// A three-cell figure row.
fn row3(a: Option<Shape>, b: Option<Shape>, c: Option<Shape>) -> (r: Vec<Option<Shape>>)
    ensures
        r@ == seq![a, b, c],
{
    let mut v: Vec<Option<Shape>> = Vec::new();
    v.push(a);
    v.push(b);
    v.push(c);
    proof {
        assert(v@ =~= seq![a, b, c]);
    }
    v
}

} // verus!
