use columns::blocks::block::Gem;
use columns::blocks::column::Column;
use columns::errors::Error;
use columns::game_state::{GameState, GameplayState, INITIAL_TICK_DURATION_MS};

#[test]
fn a_new_game_waits_with_an_empty_board() {
    let game = GameState::new(Some("250")).expect("a stored number should be read");
    assert_eq!(game.tick_rate(), INITIAL_TICK_DURATION_MS);
    assert_eq!(game.gameplay_state(), GameplayState::FallingColumn);
    assert!(game.message().is_none());
    assert_eq!(game.scoring().highscore(), 250);
    assert_eq!(game.scoring().score(), 0);
    assert_eq!(game.scoring().level(), 1);
    for x in 0..6 {
        for y in 0..13 {
            assert!(game.get_pile().get(x, y).is_none());
        }
    }
    assert_eq!(game.get_falling_column().gem_blocks()[0].y, -3);
}

#[test]
fn a_broken_stored_highscore_fails_a_new_game() {
    assert!(matches!(GameState::new(Some("4294967296")), Err(Error::ParseIntPosOverflow)));
    assert!(matches!(GameState::new(Some("x")), Err(Error::ParseIntInvalidDigit)));
}

#[test]
fn starting_puts_the_next_column_into_play() {
    let mut game = GameState::new(None).expect("game without persistence should initialize");
    let next = game.get_next_column();
    game.start(None).expect("start");

    let falling = game.get_falling_column();
    assert!(falling.is_falling());
    assert!(falling.x() < 6);
    let falling_gems: Vec<Gem> = falling.gem_blocks().iter().map(|b| b.gem).collect();
    let next_gems: Vec<Gem> = next.gem_blocks().iter().map(|b| b.gem).collect();
    assert_eq!(falling_gems, next_gems);
    assert_eq!(falling.gem_blocks()[0].y, -3);
}

#[test]
fn a_tick_lets_the_falling_column_down_one_row() {
    let mut game = GameState::new(None).expect("game without persistence should initialize");
    game.start(None).expect("start");

    assert!(game.tick());
    assert_eq!(game.get_falling_column().gem_blocks()[0].y, -2);
    game.drop();
    assert_eq!(game.get_falling_column().gem_blocks()[2].y, 12);
    assert!(game.tick());
    let top = game.get_pile().get(game.get_next_column().x(), 0);
    assert!(top.is_none());
}

#[test]
fn rotating_up_then_down_gives_the_gems_back() {
    let mut column = Column::with_gems(2, 0, [Gem::Ruby, Gem::Amber, Gem::Topaz], false);
    column.rotate_up();
    assert_eq!(column.gems(), [(2, 0, Gem::Amber), (2, 1, Gem::Topaz), (2, 2, Gem::Ruby)]);
    column.rotate_down();
    assert_eq!(column.gems(), [(2, 0, Gem::Ruby), (2, 1, Gem::Amber), (2, 2, Gem::Topaz)]);
    assert_eq!(column.y_bottom(), 2);
    assert_eq!(column.next_y_positions(), [1, 2, 3]);
}

#[test]
fn pause_colors_come_from_a_fixed_scramble_of_the_seed() {
    assert_eq!(Gem::random_for_pause(0), Gem::random_for_pause(0));
    assert_eq!(Gem::random_for_pause(0), Gem::Ruby);
    let seen: std::collections::HashSet<u8> =
        (0..200u64).map(|s| Gem::random_for_pause(s) as u8).collect();
    assert_eq!(seen.len(), 6);
}

#[test]
fn random_columns_draw_every_kind_of_gem() {
    let mut rng = fastrand::Rng::with_seed(7);
    let mut seen = std::collections::HashSet::new();
    for _ in 0..100 {
        let column = Column::new(1, 0, &mut rng);
        assert!(!column.is_falling());
        assert_eq!(column.x(), 1);
        for block in column.gem_blocks() {
            seen.insert(block.gem as u8);
        }
    }
    assert_eq!(seen.len(), 6);
}
