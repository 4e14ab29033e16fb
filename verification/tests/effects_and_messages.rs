use std::time::{Duration, Instant};

use columns::messages::{Message, MessageVariant};
use columns::visual_effects::{Blinking, Fading, FADE_PERCENT_PER_TICK, FULL_OPACITY_PERCENT, NUM_FADE_TICKS};

fn blinking_at(now: Instant, elapsed_ms: u64) -> Blinking {
    let Some(start_time) = now.checked_sub(Duration::from_millis(elapsed_ms)) else {
        panic!("test duration must fit in Instant")
    };
    Blinking::started_at(start_time)
}

#[test]
fn blinking_uses_three_finite_label_phases_but_remains_periodic() {
    let now = Instant::now();

    let hidden = blinking_at(now, 100);
    assert!(!hidden.is_visible_phase());
    assert!(!hidden.is_finished());

    let visible = blinking_at(now, 600);
    assert!(visible.is_visible_phase());
    assert!(!visible.is_finished());

    let final_hidden = blinking_at(now, 1_100);
    assert!(!final_hidden.is_visible_phase());
    assert!(!final_hidden.is_finished());

    let periodic_visible = blinking_at(now, 1_600);
    assert!(periodic_visible.is_visible_phase());
    assert!(periodic_visible.is_finished());
}

#[test]
fn fading_keeps_its_opaque_ticks_then_fades_to_five_percent() {
    let mut fading = Fading::new(1);

    assert_eq!(fading.opacity_percent(), FULL_OPACITY_PERCENT);
    assert!(fading.update());
    assert_eq!(fading.opacity_percent(), FULL_OPACITY_PERCENT);

    for opacity_percent in (1..NUM_FADE_TICKS).rev().map(|step| step * FADE_PERCENT_PER_TICK) {
        assert!(fading.update_after(None));
        assert_eq!(fading.opacity_percent(), opacity_percent);
    }

    assert!(!fading.update_after(None));
    assert_eq!(fading.opacity_percent(), FADE_PERCENT_PER_TICK);
}

#[test]
fn blink_phases_follow_the_elapsed_time() {
    assert!(!Blinking::is_visible_after(0));
    assert!(!Blinking::is_visible_after(474));
    assert!(Blinking::is_visible_after(475));
    assert!(!Blinking::is_visible_after(950));
    assert!(!Blinking::is_finished_after(1_424));
    assert!(Blinking::is_finished_after(1_425));
}

#[test]
fn a_second_update_within_a_frame_takes_no_tick() {
    let mut fading = Fading::new(0);
    assert!(fading.update());
    assert_eq!(fading.opacity_percent(), 95);
    assert!(fading.update());
    assert_eq!(fading.opacity_percent(), 95);
}

#[test]
fn messages_have_their_texts_and_effects() {
    assert_eq!(Message::new_get_ready().text(), "Get ready!");
    assert_eq!(Message::new_level_up().text(), "Level up!");
    assert_eq!(Message::new_paused().text(), "Paused...");
    assert_eq!(Message::new_game_over().text(), "Game over!");
    assert_eq!(Message::new_game_over().kind(), MessageVariant::GameOver);
    assert!(Message::new_game_over().blinking().is_some());
    assert!(Message::new_paused().blinking().is_none());
    assert_eq!(Message::new_paused().color_rgb(), [170, 170, 170]);
    assert_eq!(Message::new_get_ready().color_rgb(), [0, 195, 0]);
}

#[test]
fn only_fading_messages_fade() {
    let mut level_up = Message::new_level_up();
    assert_eq!(level_up.opacity_percent(), 100);
    assert!(level_up.tick());
    assert_eq!(level_up.opacity_percent(), 100);

    let mut paused = Message::new_paused();
    assert!(paused.tick());
    assert_eq!(paused.opacity_percent(), 100);
    let mut game_over = Message::new_game_over();
    assert!(game_over.tick());
}

#[test]
fn a_fading_takes_at_most_one_tick_per_frame() {
    let mut fading = Fading::new(0);
    assert!(fading.update_after(None));
    assert_eq!(fading.opacity_percent(), 95);
    assert!(fading.update_after(Some(32)));
    assert_eq!(fading.opacity_percent(), 95);
    assert!(fading.update_after(Some(33)));
    assert_eq!(fading.opacity_percent(), 90);
}

#[test]
fn fading_messages_are_shown_for_their_ticks() {
    let mut get_ready = Message::new_get_ready();
    let mut shown = 0;
    while get_ready.tick_after(Some(40)) {
        shown += 1;
    }
    assert_eq!(shown, 20);

    let mut level_up = Message::new_level_up();
    let mut shown = 0;
    while level_up.tick_after(Some(40)) {
        shown += 1;
    }
    assert_eq!(shown, 47);

    let mut paused = Message::new_paused();
    for _ in 0..100 {
        assert!(paused.tick_after(Some(40)));
    }
}
