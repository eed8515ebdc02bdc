use minesweeper::cell::{Glyph, Place};

#[test]
fn uncover_shows_count_or_explodes() {
    assert_eq!(Place::Hidden(3).uncover(), Place::Visible(3));
    assert_eq!(Place::Hidden(0).uncover(), Place::Visible(0));
    assert_eq!(Place::Mine.uncover(), Place::Boom);
}

#[test]
fn uncover_leaves_revealed_and_flagged_alone() {
    assert_eq!(Place::Visible(2).uncover(), Place::Visible(2));
    assert_eq!(Place::Boom.uncover(), Place::Boom);
    assert_eq!(Place::MarkedMine.uncover(), Place::MarkedMine);
    assert_eq!(Place::IncorrectlyMarked(4).uncover(), Place::IncorrectlyMarked(4));
}

#[test]
fn toggle_flag_cycles() {
    assert_eq!(Place::Mine.toggle_flag(), Place::MarkedMine);
    assert_eq!(Place::MarkedMine.toggle_flag(), Place::Mine);
    assert_eq!(Place::Hidden(5).toggle_flag(), Place::IncorrectlyMarked(5));
    assert_eq!(Place::IncorrectlyMarked(5).toggle_flag(), Place::Hidden(5));
}

#[test]
fn toggle_flag_leaves_revealed_alone() {
    assert_eq!(Place::Visible(1).toggle_flag(), Place::Visible(1));
    assert_eq!(Place::Boom.toggle_flag(), Place::Boom);
}

#[test]
fn toggle_flag_four_times_is_identity() {
    let all = [
        Place::MarkedMine,
        Place::IncorrectlyMarked(7),
        Place::Mine,
        Place::Boom,
        Place::Hidden(2),
        Place::Visible(8),
    ];
    for p in all {
        assert_eq!(p.toggle_flag().toggle_flag().toggle_flag().toggle_flag(), p);
    }
}

#[test]
fn glyph_of_each_state() {
    assert_eq!(Place::Visible(3).glyph(), Glyph::Count(3));
    assert_eq!(Place::Visible(0).glyph(), Glyph::Blank);
    assert_eq!(Place::MarkedMine.glyph(), Glyph::Flag);
    assert_eq!(Place::IncorrectlyMarked(2).glyph(), Glyph::Flag);
    assert_eq!(Place::Boom.glyph(), Glyph::Explosion);
    assert_eq!(Place::Hidden(4).glyph(), Glyph::Blank);
    assert_eq!(Place::Mine.glyph(), Glyph::Blank);
}
