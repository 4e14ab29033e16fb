use columns::blocks::block::{Gem, GemBlock};
use columns::game_state::GameState;
use columns::rendering::{
    board_blocks, next_column_blocks, seed_for_randomizing_falling_column_blocks,
    seed_for_randomizing_next_column_blocks, seed_for_randomizing_pile_blocks,
};

#[test]
fn a_falling_column_above_the_board_is_not_drawn() {
    let mut game = GameState::new(None).expect("game without persistence should initialize");
    game.start(None).expect("start");
    assert!(board_blocks(&game, None).is_empty());
    assert!(board_blocks(&game, Some(5)).is_empty());

    assert!(game.tick());
    let column = game.get_falling_column();
    let bottom = column.gem_blocks()[2];
    assert_eq!(bottom.y, 0);
    assert_eq!(board_blocks(&game, None), vec![bottom]);
    let seed = seed_for_randomizing_falling_column_blocks(5, bottom.x, 0);
    assert_eq!(board_blocks(&game, Some(5)), vec![GemBlock::new(bottom.x, 0, Gem::random_for_pause(seed))]);
}

#[test]
fn a_landed_column_is_drawn_from_the_pile_row_by_row() {
    let mut game = GameState::new(None).expect("game without persistence should initialize");
    game.start(None).expect("start");
    let landed = game.get_falling_column();
    game.drop();
    assert!(game.tick());

    let x = landed.x();
    let gems: Vec<Gem> = landed.gem_blocks().iter().map(|b| b.gem).collect();
    let expected: Vec<GemBlock> = (0..3).map(|k| GemBlock::new(x, 10 + k as i8, gems[k])).collect();
    assert_eq!(board_blocks(&game, None), expected);

    let scrambled: Vec<GemBlock> = (0..3u8)
        .map(|k| GemBlock::new(x, 10 + k as i8, Gem::random_for_pause(seed_for_randomizing_pile_blocks(9, x, 10 + k))))
        .collect();
    assert_eq!(board_blocks(&game, Some(9)), scrambled);
}

#[test]
fn the_next_column_is_drawn_whole_and_scrambled_while_paused() {
    let game = GameState::new(None).expect("game without persistence should initialize");
    let next = game.get_next_column();
    assert_eq!(next_column_blocks(&game, None), next.gem_blocks().to_vec());

    let paused = next_column_blocks(&game, Some(3));
    assert_eq!(paused.len(), 3);
    for (k, block) in next.gem_blocks().iter().enumerate() {
        let seed = seed_for_randomizing_next_column_blocks(3, block.x, block.y);
        assert_eq!(paused[k], GemBlock::new(0, block.y, Gem::random_for_pause(seed)));
    }
    assert_eq!(next_column_blocks(&game, Some(3)), paused);
}
