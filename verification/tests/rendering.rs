use columns::blocks::block::Gem;
use columns::rendering::{
    border_cell, centered_text_x, decimal_text, decimal_width, emoji_bullet, gem_bullet, generate_seed, get_layout_areas,
    instruction_rows, is_terminal_window_too_small, place_dimensions_centered, right_aligned_text_x,
    seed_for_randomizing_falling_column_blocks, seed_for_randomizing_next_column_blocks, seed_for_randomizing_pile_blocks,
    wrap_text, Area, EMOJI_BULLETS, INSTRUCTIONS,
};

#[test]
fn packed_emoji_bullets_preserve_the_original_entries() {
    let expected = ["👉", "✨", "🎯", "🚀", "🔧", "📬"];

    for (index, expected) in expected.into_iter().enumerate() {
        assert_eq!(emoji_bullet(index), expected);
    }
    assert_eq!(EMOJI_BULLETS.len(), 23);
}

#[test]
fn gem_bullets_come_in_their_fixed_order() {
    let expected = [Gem::Amethyst, Gem::Ruby, Gem::Amber, Gem::Topaz, Gem::Emerald, Gem::Sapphire];
    for (index, expected) in expected.into_iter().enumerate() {
        assert_eq!(gem_bullet(index), expected);
    }
}

#[test]
fn numbers_are_written_in_decimal() {
    assert_eq!(decimal_text(0), b"0".to_vec());
    assert_eq!(decimal_text(9), b"9".to_vec());
    assert_eq!(decimal_text(10), b"10".to_vec());
    assert_eq!(decimal_text(279_936), b"279936".to_vec());
    assert_eq!(decimal_text(u32::MAX), b"4294967295".to_vec());
    assert_eq!(decimal_width(0), 1);
    assert_eq!(decimal_width(99), 2);
    assert_eq!(decimal_width(100), 3);
    assert_eq!(decimal_width(u32::MAX), 10);
}

#[test]
fn seeds_pack_flag_tick_and_position() {
    assert_eq!(generate_seed(1, 2, 3, 4), 0x0001_0002_0003_0004);
    assert_eq!(seed_for_randomizing_next_column_blocks(7, 0, -2), 0x0001_0007_0002_0000);
    assert_eq!(seed_for_randomizing_falling_column_blocks(7, 5, 9), 0x0002_0007_0009_0005);
    assert_eq!(seed_for_randomizing_pile_blocks(0xffff, 5, 12), 0x0003_ffff_000c_0005);
    assert_ne!(seed_for_randomizing_next_column_blocks(1, 1, 1), seed_for_randomizing_falling_column_blocks(1, 1, 1));
    assert_eq!(seed_for_randomizing_falling_column_blocks(3, 1, -128), 0x0002_0003_0080_0001);
}

#[test]
fn small_windows_are_refused() {
    assert!(!is_terminal_window_too_small(29, 27));
    assert!(is_terminal_window_too_small(28, 27));
    assert!(is_terminal_window_too_small(29, 26));
    assert!(!is_terminal_window_too_small(200, 80));
}

#[test]
fn the_layout_follows_the_frame() {
    let areas = get_layout_areas(Area::new(0, 0, 80, 30));
    assert_eq!(areas.level, Area::new(2, 1, 27, 1));
    assert_eq!(areas.message, Area::new(0, 2, 27, 2));
    assert_eq!(areas.next_column, Area::new(1, 5, 11, 3));
    assert_eq!(areas.stats, Area::new(2, 9, 11, 11));
    assert_eq!(areas.board, Area::new(14, 4, 14, 15));
    assert_eq!(areas.keys_legend, Area::new(1, 20, 27, 9));
    assert_eq!(areas.instructions, Area::new(0, 0, 29, 30));
}

#[test]
fn text_is_centered_or_aligned_right() {
    let area = Area::new(10, 0, 20, 1);
    assert_eq!(centered_text_x(area, 6), 17);
    assert_eq!(centered_text_x(area, 30), 10);
    assert_eq!(right_aligned_text_x(area, 6), 24);
    assert_eq!(right_aligned_text_x(area, 25), 10);
}

#[test]
fn text_wraps_at_whitespace_within_the_width() {
    let text = b"Terminal window too small!";
    assert_eq!(wrap_text(text, 29, 5), vec![(0, 26)]);
    assert_eq!(wrap_text(text, 10, 5), vec![(0, 8), (9, 15), (16, 26)]);
    assert_eq!(wrap_text(text, 10, 2), vec![(0, 8), (9, 15)]);
    assert_eq!(wrap_text(text, 0, 5), vec![]);
    assert_eq!(wrap_text(b"  abcdefghij  ", 4, 5), vec![(2, 6), (6, 10), (10, 12)]);
    assert_eq!(wrap_text(b"   ", 4, 5), vec![]);
}

#[test]
fn dimensions_share_a_row_where_they_fit() {
    let wide = place_dimensions_centered(Area::new(0, 0, 40, 10), 3, b"Required: ", 29, 27);
    assert_eq!((wide.prefix_x, wide.prefix_y, wide.prefix_len), (12, 3, 10));
    assert_eq!((wide.numbers_y, wide.first_x, wide.times_x, wide.second_x, wide.next_y), (3, 22, 24, 25, 4));

    let narrow = place_dimensions_centered(Area::new(0, 0, 12, 10), 3, b"Required: ", 29, 27);
    assert_eq!((narrow.prefix_x, narrow.prefix_y, narrow.prefix_len), (1, 3, 9));
    assert_eq!((narrow.numbers_y, narrow.first_x, narrow.times_x, narrow.second_x, narrow.next_y), (4, 3, 5, 6, 5));
}

#[test]
fn the_instructions_page_has_six_bullets_in_order() {
    let rows = instruction_rows(INSTRUCTIONS.as_bytes());
    assert_eq!(rows.len(), 18);
    let bullets: Vec<usize> = rows.iter().filter_map(|row| row.bullet).collect();
    assert_eq!(bullets, vec![0, 1, 2, 3, 4, 5]);
    let first = rows[0];
    assert_eq!(&INSTRUCTIONS[first.start..first.end], "Gain points by");
    assert_eq!(rows[3].start, rows[3].end);
    assert_eq!(&INSTRUCTIONS[rows[15].start..rows[15].end], "--");
    assert_eq!(rows[15].bullet, None);
    assert_eq!(&INSTRUCTIONS[rows[17].start..rows[17].end], "rdrmic@gmail.com");
}

#[test]
fn the_board_border_is_drawn_cell_by_cell() {
    let area = Area::new(14, 4, 14, 15);
    assert_eq!(border_cell(area, 13, 4, false), None);
    assert_eq!(border_cell(area, 14, 4, false), Some("▄"));
    assert_eq!(border_cell(area, 27, 4, false), Some("▄"));
    assert_eq!(border_cell(area, 20, 18, false), Some("▀"));
    assert_eq!(border_cell(area, 14, 10, false), Some("▐"));
    assert_eq!(border_cell(area, 27, 10, false), Some("▌"));
    assert_eq!(border_cell(area, 20, 10, false), None);
    assert_eq!(border_cell(area, 28, 10, false), None);
    assert_eq!(border_cell(area, 14, 4, true), Some(" "));
    assert_eq!(border_cell(area, 27, 18, true), Some(" "));
    assert_eq!(border_cell(area, 20, 10, true), None);
    assert_eq!(border_cell(Area::new(0, 0, 3, 1), 1, 0, false), Some("▀"));
}
