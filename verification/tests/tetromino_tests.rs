use tetromino::{render_figure, solve, Shape, Tetromino};
use tetromino::grid::{fits_in_field, is_solved, place_in_field, rotate};
use tetromino::piece::remove_duplicates_and_rotations;

fn empty_grid(rows: usize, cols: usize) -> Vec<Vec<Option<Shape>>> {
    vec![vec![None; cols]; rows]
}

fn count_occupied(grid: &Vec<Vec<Option<Shape>>>) -> usize {
    grid.iter().map(|row| row.iter().filter(|c| c.is_some()).count()).sum()
}

fn fully_occupied(grid: &Vec<Vec<Option<Shape>>>) -> bool {
    grid.iter().all(|row| row.iter().all(|c| c.is_some()))
}

const ALL_SHAPES: [Shape; 7] =
    [Shape::I, Shape::J, Shape::L, Shape::O, Shape::S, Shape::T, Shape::Z];

#[test]
fn variant_counts_match_symmetry() {
    assert_eq!(Tetromino::new(Shape::O).variants().len(), 1);
    assert_eq!(Tetromino::new(Shape::I).variants().len(), 2);
    assert_eq!(Tetromino::new(Shape::S).variants().len(), 2);
    assert_eq!(Tetromino::new(Shape::Z).variants().len(), 2);
    assert_eq!(Tetromino::new(Shape::J).variants().len(), 4);
    assert_eq!(Tetromino::new(Shape::L).variants().len(), 4);
    assert_eq!(Tetromino::new(Shape::T).variants().len(), 4);
}

#[test]
fn every_variant_has_four_occupied_cells() {
    for s in ALL_SHAPES {
        for variant in Tetromino::new(s).variants() {
            assert_eq!(count_occupied(&variant), 4);
        }
    }
}

#[test]
fn four_rotations_return_the_original() {
    for s in ALL_SHAPES {
        let canonical = Tetromino::new(s).variants().swap_remove(0);
        let turned = rotate(&rotate(&rotate(&rotate(&canonical))));
        assert_eq!(turned, canonical);
    }
}

#[test]
fn rotation_of_the_vertical_bar() {
    let vertical = vec![
        vec![Some(Shape::I)],
        vec![Some(Shape::I)],
        vec![Some(Shape::I)],
        vec![Some(Shape::I)],
    ];
    let horizontal = rotate(&vertical);
    assert_eq!(
        horizontal,
        vec![vec![Some(Shape::I), Some(Shape::I), Some(Shape::I), Some(Shape::I)]]
    );
}

#[test]
fn fit_then_place_then_no_refit() {
    let grid = empty_grid(2, 3);
    let square = Tetromino::new(Shape::O).variants().swap_remove(0);
    assert!(fits_in_field(&grid, &square, 0, 0));
    let placed = place_in_field(&grid, &square, 0, 0);
    assert_eq!(placed[0][0], Some(Shape::O));
    assert_eq!(placed[0][1], Some(Shape::O));
    assert_eq!(placed[1][0], Some(Shape::O));
    assert_eq!(placed[1][1], Some(Shape::O));
    assert_eq!(placed[0][2], None);
    assert_eq!(placed[1][2], None);
    assert!(!fits_in_field(&placed, &square, 0, 0));
    assert!(!fits_in_field(&placed, &square, 0, 1));
    assert!(fits_in_field(&grid, &square, 0, 1));
    assert!(!fits_in_field(&grid, &square, 0, 2));
    assert!(!fits_in_field(&grid, &square, 1, 0));
}

#[test]
fn completion_test() {
    let degenerate: Vec<Vec<Option<Shape>>> = Vec::new();
    assert!(is_solved(&degenerate));
    let empty = empty_grid(2, 2);
    assert!(!is_solved(&empty));
    let full = vec![vec![Some(Shape::O); 2]; 2];
    assert!(is_solved(&full));
    let mut one_hole = vec![vec![Some(Shape::O); 2]; 2];
    one_hole[1][1] = None;
    assert!(!is_solved(&one_hole));
}

#[test]
fn square_fills_two_by_two() {
    let grid = empty_grid(2, 2);
    let pieces = vec![Tetromino::new(Shape::O)];
    let solution = solve(&grid, &pieces).expect("a 2x2 grid holds one O piece");
    assert_eq!(solution, vec![vec![Some(Shape::O); 2]; 2]);
}

#[test]
fn bar_fills_four_by_one() {
    let grid = empty_grid(4, 1);
    let pieces = vec![Tetromino::new(Shape::I)];
    let solution = solve(&grid, &pieces).expect("a 4x1 grid holds one I piece");
    assert_eq!(solution, vec![vec![Some(Shape::I)]; 4]);
}

#[test]
fn bar_does_not_fit_two_by_two() {
    let grid = empty_grid(2, 2);
    let pieces = vec![Tetromino::new(Shape::I)];
    assert!(solve(&grid, &pieces).is_none());
}

#[test]
fn eight_pieces_tile_eight_by_four() {
    let grid = empty_grid(8, 4);
    let pieces: Vec<Tetromino> = [
        Shape::O,
        Shape::I,
        Shape::T,
        Shape::T,
        Shape::L,
        Shape::Z,
        Shape::O,
        Shape::I,
    ]
    .iter()
    .map(|s| Tetromino::new(*s))
    .collect();
    let solution = solve(&grid, &pieces).expect("these eight pieces tile the 8x4 board");
    assert_eq!(solution.len(), 8);
    assert!(solution.iter().all(|row| row.len() == 4));
    assert!(fully_occupied(&solution));
    assert_eq!(count_occupied(&solution), 32);
}

#[test]
fn no_pieces_on_an_unfinished_grid() {
    let grid = empty_grid(2, 2);
    let pieces: Vec<Tetromino> = Vec::new();
    assert!(solve(&grid, &pieces).is_none());
}

#[test]
fn no_pieces_on_a_finished_grid() {
    let grid = vec![vec![Some(Shape::T); 3]; 2];
    let pieces: Vec<Tetromino> = Vec::new();
    let solution = solve(&grid, &pieces).expect("a full grid needs no pieces");
    assert_eq!(solution, grid);
}

#[test]
fn solving_preserves_prefilled_cells() {
    let mut grid = empty_grid(4, 2);
    for r in 0..2 {
        for c in 0..2 {
            grid[r][c] = Some(Shape::T);
        }
    }
    let pieces = vec![Tetromino::new(Shape::O)];
    let solution = solve(&grid, &pieces).expect("the free half holds one O piece");
    for r in 0..2 {
        for c in 0..2 {
            assert_eq!(solution[r][c], Some(Shape::T));
        }
    }
    for r in 2..4 {
        for c in 0..2 {
            assert_eq!(solution[r][c], Some(Shape::O));
        }
    }
}

#[test]
fn letters_name_the_shapes() {
    assert_eq!(Shape::I.letter(), 'I');
    assert_eq!(Shape::J.letter(), 'J');
    assert_eq!(Shape::L.letter(), 'L');
    assert_eq!(Shape::O.letter(), 'O');
    assert_eq!(Shape::S.letter(), 'S');
    assert_eq!(Shape::T.letter(), 'T');
    assert_eq!(Shape::Z.letter(), 'Z');
}

#[test]
fn letters_round_trip_and_others_are_rejected() {
    for s in ALL_SHAPES {
        assert_eq!(Shape::from_letter(s.letter()), Some(s));
    }
    assert_eq!(Shape::from_letter('Q'), None);
    assert_eq!(Shape::from_letter('i'), None);
    assert_eq!(Shape::from_letter(' '), None);
}

#[test]
fn rendering_a_partial_grid() {
    let grid = vec![
        vec![Some(Shape::O), None],
        vec![Some(Shape::I), Some(Shape::T)],
    ];
    let text: String = render_figure(&grid).into_iter().collect();
    assert_eq!(text, "O \nIT\n");
}

#[test]
fn duplicates_and_rotations_are_removed() {
    let vertical = Tetromino::new(Shape::I).variants().swap_remove(0);
    let horizontal = rotate(&vertical);
    let square = Tetromino::new(Shape::O).variants().swap_remove(0);
    let input = vec![square.clone(), vertical.clone(), square.clone(), horizontal];
    let kept = remove_duplicates_and_rotations(input);
    assert_eq!(kept, vec![square, vertical]);
}
