use columns::blocks::block::Gem;
use columns::blocks::column::Column;
use columns::blocks::matching::MatchingStructure;
use columns::blocks::pile::Pile;
use columns::game_state::{BOARD_HEIGHT, BOARD_WIDTH};

#[test]
fn scores_each_run_only_once() {
    let mut pile = Pile::with_gems(&[(0, 0, Gem::Ruby), (1, 0, Gem::Ruby), (2, 0, Gem::Ruby)]);

    assert_eq!(pile.find_matches(MatchingStructure::Pile), Some(3));
}

#[test]
fn multiplies_intersecting_directions() {
    let mut pile =
        Pile::with_gems(&[(1, 2, Gem::Ruby), (2, 2, Gem::Ruby), (3, 2, Gem::Ruby), (2, 1, Gem::Ruby), (2, 3, Gem::Ruby)]);

    assert_eq!(pile.find_matches(MatchingStructure::Pile), Some(9));
}

#[test]
fn supports_runs_longer_than_the_old_packed_representation() {
    let gems: Vec<(u8, u8, Gem)> = (0..BOARD_HEIGHT).map(|y| (0, y, Gem::Ruby)).collect();
    let mut pile = Pile::with_gems(&gems);

    assert_eq!(pile.find_matches(MatchingStructure::Pile), Some(u32::from(BOARD_HEIGHT)));
}

#[test]
fn handles_many_distinct_runs_without_overflow() {
    let mut gems = Vec::new();
    for y in 0..7 {
        let gem = if y % 2 == 0 { Gem::Ruby } else { Gem::Emerald };
        for x in 0..BOARD_WIDTH {
            gems.push((x, y, gem));
        }
    }
    let mut pile = Pile::with_gems(&gems);

    assert_eq!(pile.find_matches(MatchingStructure::Pile), Some(279_936));
}

#[test]
fn saturates_match_points_at_the_score_limit() {
    let mut gems = Vec::new();
    for y in 0..BOARD_HEIGHT {
        let gem = if y % 2 == 0 { Gem::Ruby } else { Gem::Emerald };
        for x in 0..BOARD_WIDTH {
            gems.push((x, y, gem));
        }
    }
    let mut pile = Pile::with_gems(&gems);

    assert_eq!(pile.find_matches(MatchingStructure::Pile), Some(u32::MAX));
}

#[test]
fn rejects_coordinates_outside_the_fixed_board() {
    let pile = Pile::new();

    assert!(pile.get(BOARD_WIDTH, 0).is_none());
    assert!(pile.get(0, BOARD_HEIGHT).is_none());
}

#[test]
fn detects_only_gaps_below_gems_as_hanging() {
    let compact = Pile::with_gems(&[(0, BOARD_HEIGHT - 2, Gem::Ruby), (0, BOARD_HEIGHT - 1, Gem::Ruby)]);
    let hanging = Pile::with_gems(&[(0, BOARD_HEIGHT - 2, Gem::Ruby)]);

    assert!(!compact.has_hanging_gems());
    assert!(hanging.has_hanging_gems());
}

#[test]
fn finds_no_match_without_a_line_of_three() {
    let mut pile = Pile::with_gems(&[(0, 0, Gem::Ruby), (1, 0, Gem::Ruby), (2, 0, Gem::Emerald), (0, 1, Gem::Ruby)]);

    assert_eq!(pile.find_matches(MatchingStructure::Pile), None);
}

#[test]
fn finds_a_diagonal_line() {
    let mut pile = Pile::with_gems(&[(0, 0, Gem::Topaz), (1, 1, Gem::Topaz), (2, 2, Gem::Topaz), (3, 3, Gem::Topaz)]);

    assert_eq!(pile.find_matches(MatchingStructure::Pile), Some(4));
}

#[test]
fn a_search_from_a_column_looks_only_through_its_gems() {
    let column = Column::with_gems(1, 10, [Gem::Amber, Gem::Ruby, Gem::Sapphire], false);
    let mut pile = Pile::with_gems(&[(0, 11, Gem::Ruby), (2, 11, Gem::Ruby), (4, 0, Gem::Amber), (5, 0, Gem::Amber)]);
    assert!(pile.lock(column));

    assert_eq!(pile.find_matches(MatchingStructure::Column(&column)), Some(3));
    assert_eq!(pile.find_matches(MatchingStructure::Column(&Column::with_gems(4, 0, [Gem::Topaz; 3], false))), None);
}

#[test]
fn locked_gems_are_read_back_where_the_column_stood() {
    let mut pile = Pile::new();
    let column = Column::with_gems(3, 4, [Gem::Amber, Gem::Topaz, Gem::Emerald], true);

    assert!(pile.lock(column));
    assert_eq!(pile.get(3, 4), Some(Gem::Amber));
    assert_eq!(pile.get(3, 5), Some(Gem::Topaz));
    assert_eq!(pile.get(3, 6), Some(Gem::Emerald));
    assert_eq!(pile.get(3, 3), None);
    assert_eq!(pile.get(2, 4), None);
}

#[test]
fn locking_a_column_above_the_board_fails() {
    let mut pile = Pile::new();
    let column = Column::with_gems(0, -1, [Gem::Ruby; 3], true);

    assert!(!pile.lock(column));
}

#[test]
fn gravity_leaves_no_hanging_gems_and_keeps_their_order() {
    let mut pile = Pile::with_gems(&[(2, 3, Gem::Ruby), (2, 7, Gem::Amber), (2, 12, Gem::Topaz), (5, 0, Gem::Emerald)]);
    assert!(pile.has_hanging_gems());

    pile.apply_hanging_gems_gravity();

    assert!(!pile.has_hanging_gems());
    assert_eq!(pile.get(2, 10), Some(Gem::Ruby));
    assert_eq!(pile.get(2, 11), Some(Gem::Amber));
    assert_eq!(pile.get(2, 12), Some(Gem::Topaz));
    assert_eq!(pile.get(2, 9), None);
    assert_eq!(pile.get(5, 12), Some(Gem::Emerald));
    assert_eq!(pile.get(5, 0), None);
}

#[test]
fn a_finished_blink_clears_the_matched_gems() {
    let mut pile = Pile::with_gems(&[(0, 12, Gem::Ruby), (1, 12, Gem::Ruby), (2, 12, Gem::Ruby), (3, 12, Gem::Amber)]);
    assert_eq!(pile.find_matches(MatchingStructure::Pile), Some(3));

    assert!(pile.clear_matches());
    assert!(pile.advance_blinking(100));
    assert_eq!(pile.get(0, 12), Some(Gem::Ruby));
    assert!(pile.advance_blinking(400));
    assert_eq!(pile.get(0, 12), None);
    assert!(!pile.advance_blinking(1_500));

    assert_eq!(pile.get(0, 12), None);
    assert_eq!(pile.get(1, 12), None);
    assert_eq!(pile.get(2, 12), None);
    assert_eq!(pile.get(3, 12), Some(Gem::Amber));
    assert!(!pile.clear_matches());
}

#[test]
fn grid_index_is_row_major() {
    assert_eq!(Pile::calculate_grid_idx(0, 0), 0);
    assert_eq!(Pile::calculate_grid_idx(5, 0), 5);
    assert_eq!(Pile::calculate_grid_idx(0, 1), 6);
    assert_eq!(Pile::calculate_grid_idx(5, 12), 77);
}

#[test]
fn gravity_leaves_a_compact_pile_as_it_is() {
    let gems = [(1, 11, Gem::Sapphire), (1, 12, Gem::Ruby), (4, 12, Gem::Amethyst)];
    let mut pile = Pile::with_gems(&gems);
    assert!(!pile.has_hanging_gems());

    pile.apply_hanging_gems_gravity();

    for x in 0..BOARD_WIDTH {
        for y in 0..BOARD_HEIGHT {
            let expected = gems.iter().find(|&&(gx, gy, _)| gx == x && gy == y).map(|&(_, _, gem)| gem);
            assert_eq!(pile.get(x, y), expected);
        }
    }
}

#[test]
fn a_search_keeps_earlier_marks_until_they_are_cleared() {
    let mut pile = Pile::with_gems(&[(0, 12, Gem::Ruby), (1, 12, Gem::Ruby), (2, 12, Gem::Ruby)]);
    assert_eq!(pile.find_matches(MatchingStructure::Pile), Some(3));
    assert_eq!(pile.find_matches(MatchingStructure::Column(&Column::with_gems(5, 0, [Gem::Topaz; 3], false))), None);

    assert!(pile.clear_matches());
    assert!(!pile.advance_blinking(2_000));
    assert_eq!(pile.get(0, 12), None);
    assert_eq!(pile.get(1, 12), None);
    assert_eq!(pile.get(2, 12), None);
}

#[test]
fn a_match_through_a_locked_column_is_a_match_of_the_pile() {
    let column = Column::with_gems(2, 10, [Gem::Topaz, Gem::Emerald, Gem::Emerald], true);
    let mut pile = Pile::with_gems(&[(3, 11, Gem::Emerald), (4, 11, Gem::Emerald), (0, 0, Gem::Ruby)]);
    assert!(pile.lock(column));

    assert_eq!(pile.find_matches(MatchingStructure::Column(&column)), Some(3));
    let mut whole = Pile::with_gems(&[
        (2, 10, Gem::Topaz),
        (2, 11, Gem::Emerald),
        (2, 12, Gem::Emerald),
        (3, 11, Gem::Emerald),
        (4, 11, Gem::Emerald),
        (0, 0, Gem::Ruby),
    ]);
    assert!(whole.find_matches(MatchingStructure::Pile).expect("the same line") >= 3);
}

#[test]
fn the_pile_scores_at_least_what_a_locked_column_scores() {
    let column = Column::with_gems(2, 10, [Gem::Topaz, Gem::Emerald, Gem::Emerald], true);
    let gems = [(3, 11, Gem::Emerald), (4, 11, Gem::Emerald), (0, 3, Gem::Ruby), (1, 3, Gem::Ruby), (2, 3, Gem::Ruby), (3, 3, Gem::Ruby)];
    let mut pile = Pile::with_gems(&gems);
    assert!(pile.lock(column));
    let mut whole = Pile::with_gems(&gems);
    assert!(whole.lock(column));

    assert_eq!(pile.find_matches(MatchingStructure::Column(&column)), Some(3));
    assert_eq!(whole.find_matches(MatchingStructure::Pile), Some(12));
}
