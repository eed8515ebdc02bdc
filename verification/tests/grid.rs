use minesweeper::cell::Place;
use minesweeper::field::Minefield;

#[test]
fn new_field_is_hidden_everywhere() {
    let field = Minefield::new(3, 2);
    assert_eq!(field.width(), 3);
    assert_eq!(field.height(), 2);
    for r in 0..2 {
        for c in 0..3 {
            assert_eq!(field.get(r, c), Some(&Place::Hidden(0)));
        }
    }
}

#[test]
fn get_is_some_exactly_inside_the_grid() {
    let field = Minefield::new(4, 3);
    for r in 0..6 {
        for c in 0..7 {
            assert_eq!(field.get(r, c).is_some(), r < 3 && c < 4);
        }
    }
    assert_eq!(field.get(usize::MAX, 0), None);
    assert_eq!(field.get(0, usize::MAX), None);
}

#[test]
fn empty_grids_hold_nothing_and_are_solved() {
    let mut none = Minefield::new(0, 0);
    assert_eq!(none.get(0, 0), None);
    assert!(none.is_solved());
    assert_eq!(none.primary_click(0, 0), None);
    assert_eq!(none.secondary_click(0, 0), None);
    none.populate(3, (0, 0));
    assert!(none.is_solved());

    let mut no_rows = Minefield::new(5, 0);
    assert_eq!(no_rows.get(0, 0), None);
    assert!(no_rows.neighbors(0, 0).is_empty());
    no_rows.populate(1, (0, 0));
    assert!(no_rows.is_solved());

    let mut no_columns = Minefield::new(0, 5);
    assert_eq!(no_columns.get(0, 0), None);
    assert!(no_columns.neighbors(2, 0).is_empty());
    no_columns.populate(1, (0, 0));
    assert!(no_columns.is_solved());
}

#[test]
fn primary_click_reveals_hidden() {
    let mut field = Minefield::new(2, 2);
    assert_eq!(field.primary_click(1, 0), Some(&Place::Visible(0)));
    assert_eq!(field.get(1, 0), Some(&Place::Visible(0)));
    assert_eq!(field.get(0, 0), Some(&Place::Hidden(0)));
    assert_eq!(field.get(0, 1), Some(&Place::Hidden(0)));
    assert_eq!(field.get(1, 1), Some(&Place::Hidden(0)));
}

#[test]
fn primary_click_outside_has_no_effect() {
    let mut field = Minefield::new(2, 2);
    assert_eq!(field.primary_click(2, 0), None);
    assert_eq!(field.primary_click(0, 2), None);
    for r in 0..2 {
        for c in 0..2 {
            assert_eq!(field.get(r, c), Some(&Place::Hidden(0)));
        }
    }
}

#[test]
fn primary_click_on_mine_explodes() {
    let mut field = Minefield::new(2, 1);
    field.place_mines(&vec![1], 1, (0, 0));
    assert_eq!(field.primary_click(0, 1), Some(&Place::Boom));
    assert_eq!(field.get(0, 1), Some(&Place::Boom));
    assert_eq!(field.primary_click(0, 1), Some(&Place::Boom));
}

#[test]
fn primary_click_on_revealed_or_flagged_is_a_no_op() {
    let mut field = Minefield::new(2, 1);
    field.place_mines(&vec![1], 1, (0, 0));
    assert_eq!(field.primary_click(0, 0), Some(&Place::Visible(1)));
    assert_eq!(field.primary_click(0, 0), Some(&Place::Visible(1)));
    assert_eq!(field.secondary_click(0, 1), Some(&Place::MarkedMine));
    assert_eq!(field.primary_click(0, 1), Some(&Place::MarkedMine));
    assert_eq!(field.get(0, 1), Some(&Place::MarkedMine));
}

#[test]
fn secondary_click_cycles_flags() {
    let mut field = Minefield::new(2, 1);
    field.place_mines(&vec![1], 1, (0, 0));
    assert_eq!(field.secondary_click(0, 0), Some(&Place::IncorrectlyMarked(1)));
    assert_eq!(field.primary_click(0, 0), Some(&Place::IncorrectlyMarked(1)));
    assert_eq!(field.secondary_click(0, 0), Some(&Place::Hidden(1)));
    assert_eq!(field.secondary_click(0, 1), Some(&Place::MarkedMine));
    assert_eq!(field.secondary_click(0, 1), Some(&Place::Mine));
}

#[test]
fn secondary_click_four_times_restores_the_cell() {
    let mut field = Minefield::new(2, 1);
    field.place_mines(&vec![1], 1, (0, 0));
    for c in 0..2 {
        let before = *field.get(0, c).unwrap();
        for _ in 0..4 {
            field.secondary_click(0, c);
        }
        assert_eq!(field.get(0, c), Some(&before));
    }
}

#[test]
fn secondary_click_leaves_revealed_alone() {
    let mut field = Minefield::new(2, 1);
    field.place_mines(&vec![1], 1, (0, 0));
    field.primary_click(0, 0);
    field.primary_click(0, 1);
    assert_eq!(field.secondary_click(0, 0), Some(&Place::Visible(1)));
    assert_eq!(field.secondary_click(0, 1), Some(&Place::Boom));
}

#[test]
fn secondary_click_outside_has_no_effect() {
    let mut field = Minefield::new(2, 2);
    assert_eq!(field.secondary_click(2, 2), None);
    for r in 0..2 {
        for c in 0..2 {
            assert_eq!(field.get(r, c), Some(&Place::Hidden(0)));
        }
    }
}

#[test]
fn solved_when_the_mine_is_flagged_and_the_rest_revealed() {
    let mut field = Minefield::new(2, 2);
    field.place_mines(&vec![0], 1, (1, 1));
    assert_eq!(field.secondary_click(0, 0), Some(&Place::MarkedMine));
    assert_eq!(field.primary_click(0, 1), Some(&Place::Visible(1)));
    assert_eq!(field.primary_click(1, 0), Some(&Place::Visible(1)));
    assert_eq!(field.primary_click(1, 1), Some(&Place::Visible(1)));
    assert!(field.is_solved());
    assert_eq!(field.secondary_click(0, 0), Some(&Place::Mine));
    assert!(!field.is_solved());
}

#[test]
fn not_solved_with_a_flag_on_a_safe_cell_or_an_explosion() {
    let mut field = Minefield::new(2, 1);
    field.place_mines(&vec![1], 1, (0, 0));
    field.secondary_click(0, 1);
    assert!(field.is_solved());
    field.secondary_click(0, 0);
    assert!(!field.is_solved());
    field.secondary_click(0, 0);
    assert!(field.is_solved());
    field.secondary_click(0, 1);
    field.primary_click(0, 1);
    assert!(!field.is_solved());
}

#[test]
fn solved_does_not_ask_for_safe_cells_to_be_revealed() {
    let field = Minefield::new(3, 3);
    assert!(field.is_solved());
}

#[test]
fn reset_hides_everything_again() {
    let mut field = Minefield::new(3, 3);
    field.place_mines(&vec![0, 4, 8], 3, (2, 0));
    field.primary_click(0, 0);
    field.primary_click(0, 1);
    field.secondary_click(1, 1);
    field.secondary_click(2, 1);
    field.dig(2, 0);
    field.reset();
    assert_eq!(field.width(), 3);
    assert_eq!(field.height(), 3);
    for r in 0..3 {
        for c in 0..3 {
            assert_eq!(field.get(r, c), Some(&Place::Hidden(0)));
        }
    }
}

#[test]
fn neighbors_in_the_middle() {
    let field = Minefield::new(3, 3);
    assert_eq!(
        field.neighbors(1, 1),
        vec![(0, 0), (0, 1), (0, 2), (1, 0), (1, 2), (2, 0), (2, 1), (2, 2)]
    );
}

#[test]
fn neighbors_at_corners_and_edges() {
    let field = Minefield::new(4, 3);
    assert_eq!(field.neighbors(0, 0), vec![(0, 1), (1, 0), (1, 1)]);
    assert_eq!(field.neighbors(0, 3), vec![(0, 2), (1, 2), (1, 3)]);
    assert_eq!(field.neighbors(2, 0), vec![(1, 0), (1, 1), (2, 1)]);
    assert_eq!(field.neighbors(2, 3), vec![(1, 2), (1, 3), (2, 2)]);
    assert_eq!(field.neighbors(0, 1), vec![(0, 0), (0, 2), (1, 0), (1, 1), (1, 2)]);
    assert_eq!(field.neighbors(1, 0), vec![(0, 0), (0, 1), (1, 1), (2, 0), (2, 1)]);
}

#[test]
fn neighbors_of_a_single_cell_grid() {
    let field = Minefield::new(1, 1);
    assert!(field.neighbors(0, 0).is_empty());
}

#[test]
fn neighbors_from_outside_are_clipped_to_the_grid() {
    let field = Minefield::new(2, 2);
    assert_eq!(field.neighbors(2, 2), vec![(1, 1)]);
    assert_eq!(field.neighbors(2, 0), vec![(1, 0), (1, 1)]);
    assert_eq!(field.neighbors(0, 2), vec![(0, 1), (1, 1)]);
    assert!(field.neighbors(3, 3).is_empty());
    assert!(field.neighbors(usize::MAX, usize::MAX).is_empty());
    assert!(field.neighbors(0, usize::MAX).is_empty());
}
