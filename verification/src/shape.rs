//! The seven tetromino shapes and their canonical masks.

use vstd::prelude::*;

verus! {

/// One of the seven standard tetromino shapes.
#[derive(Copy, Clone, Debug, PartialEq, Eq, Structural)]
pub enum Shape {
    I,
    J,
    L,
    O,
    S,
    T,
    Z,
}

/// The canonical mask of a shape: its first orientation, as a rectangular
/// array of cells, each either empty or labeled with the shape.
pub open spec fn canonical(s: Shape) -> Seq<Seq<Option<Shape>>> {
    match s {
        Shape::I => seq![
            seq![Some(Shape::I)],
            seq![Some(Shape::I)],
            seq![Some(Shape::I)],
            seq![Some(Shape::I)],
        ],
        Shape::J => seq![
            seq![Some(Shape::J), Some(Shape::J), Some(Shape::J)],
            seq![None, None, Some(Shape::J)],
        ],
        Shape::L => seq![
            seq![Some(Shape::L), Some(Shape::L), Some(Shape::L)],
            seq![Some(Shape::L), None, None],
        ],
        Shape::O => seq![
            seq![Some(Shape::O), Some(Shape::O)],
            seq![Some(Shape::O), Some(Shape::O)],
        ],
        Shape::S => seq![
            seq![None, Some(Shape::S), Some(Shape::S)],
            seq![Some(Shape::S), Some(Shape::S), None],
        ],
        Shape::T => seq![
            seq![Some(Shape::T), Some(Shape::T), Some(Shape::T)],
            seq![None, Some(Shape::T), None],
        ],
        Shape::Z => seq![
            seq![Some(Shape::Z), Some(Shape::Z), None],
            seq![None, Some(Shape::Z), Some(Shape::Z)],
        ],
    }
}

/// The letter that names a shape.
pub open spec fn letter_of(s: Shape) -> char {
    match s {
        Shape::I => 'I',
        Shape::J => 'J',
        Shape::L => 'L',
        Shape::O => 'O',
        Shape::S => 'S',
        Shape::T => 'T',
        Shape::Z => 'Z',
    }
}

impl Shape {
    /// The letter that names this shape.
    pub fn letter(&self) -> (c: char)
        ensures
            c == letter_of(*self),
    {
        match self {
            Shape::I => 'I',
            Shape::J => 'J',
            Shape::L => 'L',
            Shape::O => 'O',
            Shape::S => 'S',
            Shape::T => 'T',
            Shape::Z => 'Z',
        }
    }

    /// The shape named by a letter, or `None` for any character that does
    /// not name one of the seven shapes.
    pub fn from_letter(c: char) -> (r: Option<Shape>)
        ensures
            match r {
                Some(s) => letter_of(s) == c,
                None => forall|s: Shape| letter_of(s) != c,
            },
    {
        match c {
            'I' => Some(Shape::I),
            'J' => Some(Shape::J),
            'L' => Some(Shape::L),
            'O' => Some(Shape::O),
            'S' => Some(Shape::S),
            'T' => Some(Shape::T),
            'Z' => Some(Shape::Z),
            _ => None,
        }
    }
}

} // verus!
