use minesweeper::cell::Place;
use minesweeper::field::Minefield;

fn snapshot(field: &Minefield) -> Vec<Vec<Place>> {
    (0..field.height())
        .map(|r| (0..field.width()).map(|c| *field.get(r, c).unwrap()).collect())
        .collect()
}

#[test]
fn dig_without_mines_reveals_everything() {
    let mut field = Minefield::new(6, 5);
    field.populate(0, (2, 3));
    assert_eq!(field.dig(2, 3), Some(Place::Visible(0)));
    for r in 0..5 {
        for c in 0..6 {
            assert_eq!(field.get(r, c), Some(&Place::Visible(0)));
        }
    }
}

#[test]
fn dig_without_mines_reveals_everything_from_any_cell() {
    for r0 in 0..3 {
        for c0 in 0..4 {
            let mut field = Minefield::new(4, 3);
            field.dig(r0, c0);
            for r in 0..3 {
                for c in 0..4 {
                    assert_eq!(field.get(r, c), Some(&Place::Visible(0)));
                }
            }
        }
    }
}

#[test]
fn dig_on_a_large_blank_grid_ends() {
    let mut field = Minefield::new(60, 60);
    field.dig(30, 30);
    for r in 0..60 {
        for c in 0..60 {
            assert_eq!(field.get(r, c), Some(&Place::Visible(0)));
        }
    }
}

#[test]
fn cascade_stops_at_the_numbers() {
    let mut field = Minefield::new(5, 1);
    field.place_mines(&vec![3], 1, (0, 0));
    assert_eq!(field.dig(0, 0), Some(Place::Visible(0)));
    assert_eq!(
        snapshot(&field),
        vec![vec![
            Place::Visible(0),
            Place::Visible(0),
            Place::Visible(1),
            Place::Mine,
            Place::Hidden(1),
        ]]
    );
}

#[test]
fn cascade_goes_round_corners() {
    let mut field = Minefield::new(4, 4);
    field.place_mines(&vec![5], 1, (3, 3));
    assert_eq!(field.dig(3, 3), Some(Place::Visible(0)));
    assert_eq!(
        snapshot(&field),
        vec![
            vec![Place::Hidden(1), Place::Hidden(1), Place::Visible(1), Place::Visible(0)],
            vec![Place::Hidden(1), Place::Mine, Place::Visible(1), Place::Visible(0)],
            vec![Place::Visible(1), Place::Visible(1), Place::Visible(1), Place::Visible(0)],
            vec![Place::Visible(0), Place::Visible(0), Place::Visible(0), Place::Visible(0)],
        ]
    );
}

#[test]
fn cascade_does_not_pass_through_a_wall_of_numbers() {
    let mut field = Minefield::new(5, 3);
    field.place_mines(&vec![2, 7, 12], 3, (0, 0));
    assert_eq!(field.dig(1, 0), Some(Place::Visible(0)));
    assert_eq!(
        snapshot(&field),
        vec![
            vec![Place::Visible(0), Place::Visible(2), Place::Mine, Place::Hidden(2), Place::Hidden(0)],
            vec![Place::Visible(0), Place::Visible(3), Place::Mine, Place::Hidden(3), Place::Hidden(0)],
            vec![Place::Visible(0), Place::Visible(2), Place::Mine, Place::Hidden(2), Place::Hidden(0)],
        ]
    );
}

#[test]
fn cascade_leaves_flags_in_place() {
    let mut field = Minefield::new(3, 1);
    field.secondary_click(0, 1);
    assert_eq!(field.dig(0, 0), Some(Place::Visible(0)));
    assert_eq!(
        snapshot(&field),
        vec![vec![Place::Visible(0), Place::IncorrectlyMarked(0), Place::Hidden(0)]]
    );
}

#[test]
fn dig_on_a_number_reveals_only_that_cell() {
    let mut field = Minefield::new(3, 3);
    field.place_mines(&vec![8], 1, (0, 0));
    assert_eq!(field.dig(1, 1), Some(Place::Visible(1)));
    let shown = snapshot(&field);
    for r in 0..3 {
        for c in 0..3 {
            let expected = match (r, c) {
                (1, 1) => Place::Visible(1),
                (2, 2) => Place::Mine,
                (1, 2) | (2, 1) => Place::Hidden(1),
                _ => Place::Hidden(0),
            };
            assert_eq!(shown[r][c], expected);
        }
    }
}

#[test]
fn dig_on_a_mine_explodes_without_cascade() {
    let mut field = Minefield::new(3, 3);
    field.place_mines(&vec![8], 1, (0, 0));
    assert_eq!(field.dig(2, 2), Some(Place::Boom));
    assert_eq!(field.get(0, 0), Some(&Place::Hidden(0)));
    assert_eq!(field.get(1, 1), Some(&Place::Hidden(1)));
}

#[test]
fn dig_outside_the_grid_has_no_effect() {
    let mut field = Minefield::new(2, 2);
    assert_eq!(field.dig(2, 2), None);
    assert_eq!(snapshot(&field), vec![vec![Place::Hidden(0); 2]; 2]);
}

#[test]
fn dig_on_a_revealed_zero_cascades_again() {
    let mut field = Minefield::new(3, 1);
    field.secondary_click(0, 1);
    field.dig(0, 0);
    field.secondary_click(0, 1);
    assert_eq!(field.dig(0, 0), Some(Place::Visible(0)));
    assert_eq!(snapshot(&field), vec![vec![Place::Visible(0); 3]]);
}

#[test]
fn cascade_alone_starts_at_the_neighbours() {
    let mut field = Minefield::new(3, 3);
    field.cascade(1, 1);
    let shown = snapshot(&field);
    for r in 0..3 {
        for c in 0..3 {
            assert_eq!(shown[r][c], Place::Visible(0));
        }
    }
    let mut field = Minefield::new(3, 1);
    field.place_mines(&vec![0], 1, (0, 2));
    field.cascade(0, 2);
    assert_eq!(
        snapshot(&field),
        vec![vec![Place::Mine, Place::Visible(1), Place::Hidden(0)]]
    );
}

#[test]
fn revealed_cells_stay_revealed() {
    let mut field = Minefield::new(4, 4);
    field.place_mines(&vec![5], 1, (3, 3));
    field.dig(3, 3);
    field.primary_click(1, 1);
    let before = snapshot(&field);
    assert_eq!(before[1][1], Place::Boom);
    assert_eq!(before[2][2], Place::Visible(1));
    for r in 0..4 {
        for c in 0..4 {
            field.secondary_click(r, c);
            field.primary_click(r, c);
            field.dig(r, c);
            field.cascade(r, c);
            field.secondary_click(r, c);
        }
    }
    let after = snapshot(&field);
    for r in 0..4 {
        for c in 0..4 {
            if matches!(before[r][c], Place::Visible(_) | Place::Boom) {
                assert_eq!(after[r][c], before[r][c]);
            }
            assert!(!matches!(after[r][c], Place::Hidden(_)) || matches!(before[r][c], Place::Hidden(_)));
        }
    }
}
