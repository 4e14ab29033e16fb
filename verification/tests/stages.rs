use columns::game_state::{GameState, GameplayState, INITIAL_TICK_DURATION_MS};
use columns::messages::Message;
use columns::stage_handlers::{
    BlinkingLabel, GameOverHandler, GameplayHandler, InstructionsHandler, Key, PausedHandler, ReadyHandler, Stage, FRAME_DURATION_IDLE_MS,
    FRAME_DURATION_PAUSED_MS,
};
use columns::terminal::{has_emoji_support, TargetOs};
use columns::visual_effects::FRAME_DURATION_MS;

#[test]
fn shared_gameplay_entry_preserves_each_stage_transition() {
    let mut game = GameState::new(None).expect("game without persistence should initialize");

    let mut ready = ReadyHandler::new(&mut game);
    let next_stage = ready
        .handle_key_pressed_event(&mut game, Key::Enter, None)
        .expect("ready transition should succeed")
        .expect("ready should enter gameplay");
    assert!(matches!(next_stage, Stage::Gameplay(_)));
    assert_eq!(game.message().map(Message::text), Some("Get ready!"));

    let mut paused = PausedHandler::new(&mut game);
    let next_stage = paused
        .handle_key_pressed_event(&mut game, Key::Enter)
        .expect("resume transition should succeed")
        .expect("pause should enter gameplay");
    assert!(matches!(next_stage, Stage::Gameplay(_)));
    assert!(game.message().is_none());

    let mut game_over = GameOverHandler::new(&mut game);
    let next_stage = game_over
        .handle_key_pressed_event(&mut game, Key::Enter, None)
        .expect("restart transition should succeed")
        .expect("game over should enter gameplay");
    assert!(matches!(next_stage, Stage::Gameplay(_)));
    assert!(game.message().is_none());
}

#[test]
fn the_ready_stage_leads_to_the_instructions_and_back() {
    let mut game = GameState::new(None).expect("game without persistence should initialize");
    let mut stage = Stage::Ready(ReadyHandler::new(&mut game));
    assert_eq!(stage.time_before_next_tick(&game), FRAME_DURATION_IDLE_MS);

    let next = stage.handle_key_pressed_event(&mut game, Key::F1, None).expect("no error").expect("a new stage");
    assert!(matches!(next, Stage::Instructions(_)));
    let mut stage = next;
    assert!(stage.handle_key_pressed_event(&mut game, Key::Left, None).expect("no error").is_none());
    let next = stage.handle_key_pressed_event(&mut game, Key::Enter, None).expect("no error").expect("a new stage");
    assert!(matches!(next, Stage::Ready(_)));

    let mut instructions = InstructionsHandler;
    assert!(instructions.handle_key_pressed_event(&mut game, Key::Esc).expect("no error").is_none());
}

#[test]
fn a_broken_stored_highscore_fails_the_start_with_its_sentence() {
    let mut game = GameState::new(None).expect("game without persistence should initialize");
    let mut stage = Stage::Ready(ReadyHandler::new(&mut game));

    let error = match stage.handle_key_pressed_event(&mut game, Key::Enter, Some("12x")) {
        Err(error) => error,
        Ok(_) => panic!("a broken highscore should fail the start"),
    };
    assert_eq!(error.to_string(), "Failed to start the game: invalid digit found in string");
}

#[test]
fn escape_pauses_the_gameplay_and_enter_resumes_it() {
    let mut game = GameState::new(Some("100")).expect("a stored highscore should be read");
    let mut stage = Stage::Ready(ReadyHandler::new(&mut game));
    let mut stage = stage.handle_key_pressed_event(&mut game, Key::Enter, Some("100")).expect("start").expect("gameplay");
    assert!(matches!(stage, Stage::Gameplay(_)));
    assert_eq!(game.scoring().highscore(), 100);
    assert_eq!(game.tick_rate(), INITIAL_TICK_DURATION_MS);
    assert_eq!(game.gameplay_state(), GameplayState::FallingColumn);
    assert!(stage.time_before_next_tick(&game) <= FRAME_DURATION_MS);

    let mut paused = stage.handle_key_pressed_event(&mut game, Key::Esc, None).expect("pause").expect("paused");
    assert!(matches!(paused, Stage::Paused(_)));
    assert_eq!(game.message().map(Message::text), Some("Paused..."));
    assert_eq!(paused.time_before_next_tick(&game), FRAME_DURATION_PAUSED_MS);
    assert!(paused.update(&mut game).is_none());

    let resumed = paused.handle_key_pressed_event(&mut game, Key::Enter, None).expect("resume").expect("gameplay");
    assert!(matches!(resumed, Stage::Gameplay(_)));
    assert!(game.message().is_none());
}

#[test]
fn gameplay_keys_move_the_falling_column_without_changing_the_stage() {
    let mut game = GameState::new(None).expect("game without persistence should initialize");
    let mut stage = Stage::Ready(ReadyHandler::new(&mut game));
    stage = stage.handle_key_pressed_event(&mut game, Key::Enter, None).expect("start").expect("gameplay");

    let x = game.get_falling_column().x();
    let left = stage.handle_key_pressed_event(&mut game, Key::Left, None).expect("no error");
    assert!(left.is_none());
    assert_eq!(game.get_falling_column().x(), if x > 0 { x - 1 } else { x });

    let gems = game.get_falling_column().gems();
    assert!(stage.handle_key_pressed_event(&mut game, Key::Up, None).expect("no error").is_none());
    assert!(stage.handle_key_pressed_event(&mut game, Key::Down, None).expect("no error").is_none());
    assert_eq!(game.get_falling_column().gems(), gems);
    assert!(stage.handle_key_pressed_event(&mut game, Key::Other, None).expect("no error").is_none());

    let after_drop = stage.handle_key_pressed_event(&mut game, Key::Space, None).expect("no error");
    assert!(after_drop.is_none());
    assert!(game.scoring().score() <= game.scoring().highscore());
}

#[test]
fn the_keys_legend_lists_each_stage_keys_then_quit() {
    let mut game = GameState::new(None).expect("game without persistence should initialize");
    let ready = Stage::Ready(ReadyHandler::new(&mut game));
    assert_eq!(ready.keys_legend(), vec![("Enter", "Start"), ("F1", "How to play"), ("Q", "Quit")]);
    let over = Stage::GameOver(GameOverHandler::new(&mut game));
    assert_eq!(over.keys_legend(), vec![("Enter", "Restart"), ("Q", "Quit")]);
}

#[test]
fn emoji_support_follows_the_terminal() {
    assert!(has_emoji_support(TargetOs::Windows, true, false));
    assert!(!has_emoji_support(TargetOs::Windows, false, false));
    assert!(has_emoji_support(TargetOs::Linux, true, true));
    assert!(!has_emoji_support(TargetOs::Linux, false, true));
    assert!(has_emoji_support(TargetOs::Linux, false, false));
    assert!(has_emoji_support(TargetOs::MacOs, false, false));
}

#[test]
fn the_gameplay_waits_a_frame_or_until_the_next_tick() {
    assert_eq!(GameplayHandler::wait_after(750, 0), 33);
    assert_eq!(GameplayHandler::wait_after(750, 740), 10);
    assert_eq!(GameplayHandler::wait_after(750, 750), 0);
    assert_eq!(GameplayHandler::wait_after(100, 5_000), 0);
}

#[test]
fn a_gameplay_frame_ticks_once_per_whole_tick_duration() {
    let mut game = GameState::new(None).expect("game without persistence should initialize");
    game.start(None).expect("start");
    let mut handler = GameplayHandler::new(&game);

    assert!(handler.update_after(&mut game, 0).is_none());
    assert_eq!(game.get_falling_column().gem_blocks()[0].y, -3);

    assert!(handler.update_after(&mut game, 3 * INITIAL_TICK_DURATION_MS + 10).is_none());
    assert_eq!(game.get_falling_column().gem_blocks()[0].y, 0);

    assert!(handler.update_after(&mut game, INITIAL_TICK_DURATION_MS - 1).is_none());
    assert_eq!(game.get_falling_column().gem_blocks()[0].y, 0);
    assert!(handler.blinking_labels().is_level_visible());
}

#[test]
fn a_label_blinks_when_its_number_grows_and_stops_after_the_blink() {
    let mut label = BlinkingLabel::new(5);
    assert!(label.is_visible());
    label.update_after(5, None);
    assert!(label.is_visible());
    label.update_after(7, None);
    assert!(!label.is_visible());
    label.update_after(7, Some(100));
    assert!(!label.is_visible());
    label.update_after(7, Some(1_425));
    assert!(label.is_visible());
}

#[test]
fn a_blinking_label_shows_in_its_odd_phases() {
    let mut label = BlinkingLabel::new(5);
    assert!(label.is_visible_after(0));
    assert!(label.is_visible_after(474));
    label.update_after(6, None);
    assert!(!label.is_visible_after(0));
    assert!(!label.is_visible_after(474));
    assert!(label.is_visible_after(475));
    assert!(label.is_visible_after(949));
    assert!(!label.is_visible_after(950));
    assert!(label.is_visible_after(1_425));
}
