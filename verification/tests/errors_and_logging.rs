use columns::errors::{contextual_error, Context, Error};
use columns::logging::source_path;

#[test]
fn clock_error_preserves_the_previous_full_diagnostic() {
    assert_eq!(
        Error::ClockBeforeUnixEpoch.to_string(),
        "Failed to generate random seed from system time: system clock is set before year 1970: second time provided was later than self"
    );
}

#[test]
fn a_context_error_reads_as_its_sentence_and_the_inner_message() {
    let error = contextual_error("Failed to start the game", Error::ParseIntInvalidDigit);
    assert_eq!(error.to_string(), "Failed to start the game: invalid digit found in string");

    let wrapped: Result<u32, Error> = Err(Error::ParseIntEmpty);
    let with_context = wrapped.context("Reading the highscore");
    assert_eq!(
        with_context.map_err(|e| e.to_string()),
        Err("Reading the highscore: cannot parse integer from empty string".to_string())
    );
    let fine: Result<u32, Error> = Ok(3);
    assert_eq!(fine.context("unused").map_err(|e| e.to_string()), Ok(3));
}

#[test]
fn an_io_error_keeps_its_message() {
    let io: Result<(), std::io::Error> = Err(std::io::Error::new(std::io::ErrorKind::NotFound, "gone"));
    let error = io.context("Failed to read the highscore").expect_err("an error stays an error");
    assert_eq!(error.to_string(), "Failed to read the highscore: gone");
}

#[test]
fn source_path_matches_the_previous_split_once_behavior() {
    let cases = [
        None,
        Some("src/main.rs"),
        Some("/workspace/project/src/main.rs"),
        Some("prefix/src/first/src/second.rs"),
        Some("résumé/src/file.rs"),
        Some("main.rs"),
        Some("src/"),
    ];

    for file in cases {
        let expected = file.and_then(|path| path.split_once("src/")).map_or("<unknown>", |(_, suffix)| suffix);
        assert_eq!(source_path(file), expected, "file: {file:?}");
    }
}
