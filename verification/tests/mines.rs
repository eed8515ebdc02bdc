use minesweeper::cell::Place;
use minesweeper::field::Minefield;
use minesweeper::placement::draw_all;

fn mines_of(field: &Minefield) -> Vec<(usize, usize)> {
    let mut found = Vec::new();
    for r in 0..field.height() {
        for c in 0..field.width() {
            if field.get(r, c) == Some(&Place::Mine) {
                found.push((r, c));
            }
        }
    }
    found
}

fn counts_are_exact(field: &Minefield) -> bool {
    for r in 0..field.height() {
        for c in 0..field.width() {
            if let Some(Place::Hidden(n)) = field.get(r, c) {
                let around = field
                    .neighbors(r, c)
                    .into_iter()
                    .filter(|&(i, j)| field.get(i, j) == Some(&Place::Mine))
                    .count();
                if *n != around {
                    return false;
                }
            }
        }
    }
    true
}

#[test]
fn place_mines_lays_the_picked_positions() {
    let mut field = Minefield::new(3, 3);
    field.place_mines(&vec![0, 4, 8], 3, (2, 0));
    let expected = [
        [Place::Mine, Place::Hidden(2), Place::Hidden(1)],
        [Place::Hidden(2), Place::Mine, Place::Hidden(2)],
        [Place::Hidden(1), Place::Hidden(2), Place::Mine],
    ];
    for r in 0..3 {
        for c in 0..3 {
            assert_eq!(field.get(r, c), Some(&expected[r][c]));
        }
    }
}

#[test]
fn place_mines_maps_indices_row_major() {
    let mut field = Minefield::new(4, 2);
    field.place_mines(&vec![5], 1, (0, 0));
    assert_eq!(mines_of(&field), vec![(1, 1)]);
    let mut field = Minefield::new(4, 2);
    field.place_mines(&vec![3], 1, (0, 0));
    assert_eq!(mines_of(&field), vec![(0, 3)]);
}

#[test]
fn place_mines_skips_the_protected_position() {
    let mut field = Minefield::new(3, 1);
    field.place_mines(&vec![1, 0, 2], 2, (0, 1));
    assert_eq!(field.get(0, 0), Some(&Place::Mine));
    assert_eq!(field.get(0, 1), Some(&Place::Hidden(2)));
    assert_eq!(field.get(0, 2), Some(&Place::Mine));
}

#[test]
fn place_mines_takes_only_the_first_num_mines() {
    let mut field = Minefield::new(3, 1);
    field.place_mines(&vec![2, 0, 1], 2, (5, 5));
    assert_eq!(field.get(0, 0), Some(&Place::Mine));
    assert_eq!(field.get(0, 1), Some(&Place::Hidden(2)));
    assert_eq!(field.get(0, 2), Some(&Place::Mine));

    let mut field = Minefield::new(3, 1);
    field.place_mines(&vec![2, 0, 1], 1, (5, 5));
    assert_eq!(field.get(0, 0), Some(&Place::Hidden(0)));
    assert_eq!(field.get(0, 1), Some(&Place::Hidden(1)));
    assert_eq!(field.get(0, 2), Some(&Place::Mine));
}

#[test]
fn place_mines_with_no_mines_leaves_a_blank_grid() {
    let mut field = Minefield::new(2, 2);
    field.place_mines(&vec![3], 0, (0, 0));
    for r in 0..2 {
        for c in 0..2 {
            assert_eq!(field.get(r, c), Some(&Place::Hidden(0)));
        }
    }
}

#[test]
fn place_mines_clears_the_grid_first() {
    let mut field = Minefield::new(2, 2);
    field.place_mines(&vec![0, 1], 2, (1, 1));
    field.primary_click(1, 1);
    field.secondary_click(0, 0);
    field.place_mines(&vec![3], 1, (0, 0));
    assert_eq!(field.get(0, 0), Some(&Place::Hidden(1)));
    assert_eq!(field.get(0, 1), Some(&Place::Hidden(1)));
    assert_eq!(field.get(1, 0), Some(&Place::Hidden(1)));
    assert_eq!(field.get(1, 1), Some(&Place::Mine));
}

#[test]
fn a_cell_surrounded_by_mines_counts_eight() {
    let mut field = Minefield::new(3, 3);
    field.place_mines(&vec![0, 1, 2, 3, 5, 6, 7, 8, 4], 8, (1, 1));
    assert_eq!(field.get(1, 1), Some(&Place::Hidden(8)));
    assert_eq!(mines_of(&field).len(), 8);
}

#[test]
fn populate_places_the_requested_number_of_mines() {
    for _ in 0..50 {
        let mut field = Minefield::new(12, 8);
        field.populate(20, (3, 4));
        assert_eq!(mines_of(&field).len(), 20);
        assert!(counts_are_exact(&field));
    }
}

#[test]
fn populate_never_mines_the_protected_position() {
    for n in 0..9 {
        for _ in 0..30 {
            let mut field = Minefield::new(3, 3);
            field.populate(n, (1, 2));
            assert!(matches!(field.get(1, 2), Some(Place::Hidden(_))));
            assert_eq!(mines_of(&field).len(), n.min(8));
            assert!(counts_are_exact(&field));
        }
    }
}

#[test]
fn populate_leaves_only_mines_and_hidden_cells() {
    let mut field = Minefield::new(5, 5);
    field.populate(5, (0, 0));
    field.dig(0, 0);
    field.secondary_click(4, 4);
    field.populate(7, (2, 2));
    for r in 0..5 {
        for c in 0..5 {
            assert!(matches!(field.get(r, c), Some(Place::Hidden(_)) | Some(Place::Mine)));
        }
    }
    assert_eq!(mines_of(&field).len(), 7);
    assert!(counts_are_exact(&field));
}

#[test]
fn populate_with_all_but_one_mines_fills_everything_else() {
    let mut field = Minefield::new(3, 2);
    field.populate(5, (1, 1));
    assert_eq!(field.get(1, 1), Some(&Place::Hidden(5)));
    assert_eq!(mines_of(&field).len(), 5);
}

#[test]
fn populate_caps_the_mines_at_the_room_there_is() {
    let mut field = Minefield::new(2, 2);
    field.populate(10, (0, 1));
    assert_eq!(mines_of(&field), vec![(0, 0), (1, 0), (1, 1)]);
    assert_eq!(field.get(0, 1), Some(&Place::Hidden(3)));

    let mut field = Minefield::new(2, 2);
    field.populate(10, (7, 7));
    assert_eq!(mines_of(&field).len(), 4);

    let mut field = Minefield::new(2, 2);
    field.populate(usize::MAX, (0, 0));
    assert_eq!(mines_of(&field).len(), 3);
}

#[test]
fn populate_with_protection_outside_the_grid() {
    for _ in 0..30 {
        let mut field = Minefield::new(4, 4);
        field.populate(15, (1337, 1337));
        assert_eq!(mines_of(&field).len(), 15);
        assert!(counts_are_exact(&field));
    }
}

#[test]
fn populate_with_no_mines_leaves_a_blank_grid() {
    let mut field = Minefield::new(3, 3);
    field.populate(0, (1, 1));
    for r in 0..3 {
        for c in 0..3 {
            assert_eq!(field.get(r, c), Some(&Place::Hidden(0)));
        }
    }
}

#[test]
fn populate_varies_the_layout() {
    let mut seen = std::collections::HashSet::new();
    for _ in 0..200 {
        let mut field = Minefield::new(5, 1);
        field.populate(1, (0, 0));
        let mines = mines_of(&field);
        assert_eq!(mines.len(), 1);
        assert_ne!(mines[0], (0, 0));
        seen.insert(mines[0]);
    }
    assert_eq!(seen.len(), 4);
}

#[test]
fn loss_on_single_mine() {
    let mut field = Minefield::new(1, 1);
    field.populate(1, (5, 5));
    assert_eq!(field.get(0, 0), Some(&Place::Mine));
    assert_eq!(field.primary_click(0, 0), Some(&Place::Boom));
}

#[test]
fn counts_survive_flags_and_reveals() {
    let mut field = Minefield::new(3, 3);
    field.place_mines(&vec![0, 4], 2, (2, 2));
    assert_eq!(field.secondary_click(0, 1), Some(&Place::IncorrectlyMarked(2)));
    assert_eq!(field.secondary_click(0, 0), Some(&Place::MarkedMine));
    assert_eq!(field.primary_click(1, 0), Some(&Place::Visible(2)));
    assert_eq!(field.secondary_click(0, 1), Some(&Place::Hidden(2)));
    assert_eq!(field.primary_click(0, 1), Some(&Place::Visible(2)));
    assert_eq!(field.primary_click(2, 2), Some(&Place::Visible(1)));
}

#[test]
fn draw_all_lists_every_index_with_the_chosen_one_last() {
    assert_eq!(draw_all(5, 2), vec![0, 1, 3, 4, 2]);
    assert_eq!(draw_all(5, 0), vec![1, 2, 3, 4, 0]);
    assert_eq!(draw_all(5, 4), vec![0, 1, 2, 3, 4]);
    assert_eq!(draw_all(1, 0), vec![0]);
}

#[test]
fn a_full_draw_leaves_only_the_last_position_free() {
    for last in 0..6 {
        let mut field = Minefield::new(3, 2);
        field.place_mines(&draw_all(6, last), 5, (9, 9));
        let mut expected: Vec<(usize, usize)> = (0..6).filter(|i| *i != last).map(|i| (i / 3, i % 3)).collect();
        expected.sort();
        assert_eq!(mines_of(&field), expected);
        assert!(counts_are_exact(&field));
    }
}

#[test]
fn a_full_draw_fills_what_the_protected_position_leaves() {
    let mut field = Minefield::new(3, 2);
    field.place_mines(&draw_all(6, 1), 6, (1, 1));
    assert_eq!(mines_of(&field), vec![(0, 0), (0, 1), (0, 2), (1, 0), (1, 2)]);
    assert_eq!(field.get(1, 1), Some(&Place::Hidden(5)));
}
