use columns::scoring::Scoring;

#[test]
fn applies_match_and_cascade_products() {
    let mut scoring = Scoring::new(None).expect("scoring without persistence should initialize");

    scoring.add(3);
    assert_eq!(scoring.score(), 3);

    scoring.add(3);
    assert_eq!(scoring.score(), 15);
}

#[test]
fn saturates_points_at_the_score_limit() {
    let mut scoring = Scoring::new(None).expect("scoring without persistence should initialize");

    scoring.add(u32::MAX);
    scoring.add(u32::MAX);

    assert_eq!(scoring.score(), u32::MAX);
    assert_eq!(scoring.max_combo(), u32::MAX);
}

#[test]
fn compact_highscore_parser_matches_u32_parsing() {
    let cases = [
        "",
        "+",
        "-",
        "0",
        "+0",
        "0001",
        "42",
        "4294967295",
        "4294967296",
        "-1",
        "1a",
        "１２",
        "00000000000000000000000000000000000000000000000001",
        "99999999999999999999999999999999999999999999999999",
    ];

    for input in cases {
        let expected = input.parse::<u32>().map_err(|error| error.to_string());
        let actual = Scoring::parse_highscore(input).map_err(|error| error.to_string());
        assert_eq!(actual, expected, "input: {input:?}");
    }
}

#[test]
fn cascade_multipliers_run_one_three_four_five() {
    let mut scoring = Scoring::new(None).expect("scoring without persistence should initialize");

    scoring.add(10);
    assert_eq!(scoring.score(), 10);
    scoring.add(10);
    assert_eq!(scoring.score(), 10 + (10 + 30));
    scoring.add(10);
    assert_eq!(scoring.score(), 50 + (40 + 40));
    assert_eq!(scoring.max_combo(), 80);

    scoring.break_cascade_sequence();
    scoring.add(5);
    assert_eq!(scoring.score(), 135);
    assert_eq!(scoring.max_combo(), 80);
}

#[test]
fn the_highscore_follows_the_score_and_is_read_from_storage() {
    let mut scoring = Scoring::new(Some(" 20\n")).expect("a stored number should be read");
    assert_eq!(scoring.highscore(), 20);

    scoring.add(15);
    assert_eq!(scoring.highscore(), 20);
    scoring.add(5);
    assert_eq!(scoring.score(), 15 + (15 + 15));
    assert_eq!(scoring.highscore(), 45);
}

#[test]
fn a_stored_highscore_that_is_not_a_number_fails() {
    assert!(Scoring::new(Some("abc")).is_err());
    assert!(Scoring::new(Some("")).is_err());
    assert_eq!(Scoring::new(None).expect("no storage is no highscore").highscore(), 0);
}

#[test]
fn levels_follow_the_score_thresholds() {
    assert_eq!(Scoring::calculate_level(0), 1);
    assert_eq!(Scoring::calculate_level(49), 1);
    assert_eq!(Scoring::calculate_level(50), 2);
    assert_eq!(Scoring::calculate_level(149), 2);
    assert_eq!(Scoring::calculate_level(150), 3);
    assert_eq!(Scoring::calculate_level(300), 4);
    assert_eq!(Scoring::calculate_level(500), 5);
    assert_eq!(Scoring::calculate_level(749), 5);
    assert_eq!(Scoring::calculate_level(750), 6);
    assert_eq!(Scoring::calculate_level(u32::MAX), 17_179_872);
}

#[test]
fn the_level_goes_up_once_the_score_reaches_it() {
    let mut scoring = Scoring::new(None).expect("scoring without persistence should initialize");
    scoring.add(49);
    assert!(!scoring.is_level_increased());
    assert_eq!(scoring.level(), 1);

    scoring.break_cascade_sequence();
    scoring.add(1);
    assert!(scoring.is_level_increased());
    assert_eq!(scoring.level(), 2);
    assert!(!scoring.is_level_increased());
}

#[test]
fn a_written_highscore_is_read_back() {
    for highscore in [0_u32, 7, 10, 4_294_967_295] {
        let text = String::from_utf8(columns::rendering::decimal_text(highscore)).expect("digits are ASCII");
        assert_eq!(Scoring::parse_highscore(&text).expect("digits parse"), highscore);
        assert_eq!(Scoring::new(Some(&text)).expect("digits parse").highscore(), highscore);
    }
}

#[test]
fn scoring_by_directions_multiplies_run_lengths() {
    let mut scoring = columns::score::Scoring::new();

    scoring.add([[3, 0, 0, 0], [0; 4], [0; 4], [0; 4]]);
    assert_eq!(scoring.score(), 3);

    scoring.add([[3, 0, 0, 0], [0; 4], [0; 4], [0; 4]]);
    assert_eq!(scoring.score(), 3 + (3 + 9));
    assert_eq!(scoring.max_combo(), 12);
    assert_eq!(scoring.highscore(), 15);

    scoring.break_cascade_sequence();
    scoring.add([[3, 4, 0, 0], [1, 0, 0, 0], [0; 4], [5, 0, 0, 0]]);
    assert_eq!(scoring.score(), 15 + 3 * 4 * 5);
    assert_eq!(scoring.max_combo(), 60);
}
