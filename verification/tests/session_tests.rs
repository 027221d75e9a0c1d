use revise::session::{classify, consume, SessionState, Token, QUALITY_MAX, RATING_MAX};

#[test]
fn classify_quit_and_skip() {
    assert_eq!(classify("q", RATING_MAX), Token::Quit);
    assert_eq!(classify("s", RATING_MAX), Token::Skip);
}

#[test]
fn classify_digits_in_range() {
    assert_eq!(classify("0", RATING_MAX), Token::Rating(0));
    assert_eq!(classify("3", RATING_MAX), Token::Rating(3));
    assert_eq!(classify("5", QUALITY_MAX), Token::Rating(5));
}

#[test]
fn classify_digit_out_of_range() {
    assert_eq!(classify("4", RATING_MAX), Token::Invalid);
    assert_eq!(classify("6", QUALITY_MAX), Token::Invalid);
    assert_eq!(classify("9", QUALITY_MAX), Token::Invalid);
}

#[test]
fn classify_wrong_length_or_character() {
    assert_eq!(classify("", RATING_MAX), Token::Invalid);
    assert_eq!(classify("10", RATING_MAX), Token::Invalid);
    assert_eq!(classify("x", RATING_MAX), Token::Invalid);
    assert_eq!(classify("qq", RATING_MAX), Token::Invalid);
}

#[test]
fn invalid_input_reenters_awaiting() {
    let s = consume(SessionState::AwaitingInput, "zz", QUALITY_MAX);
    assert_eq!(s, SessionState::AwaitingInput);
    let s = consume(SessionState::AwaitingInput, "7", QUALITY_MAX);
    assert_eq!(s, SessionState::AwaitingInput);
}

#[test]
fn quit_aborts_and_skip_skips() {
    assert_eq!(
        consume(SessionState::AwaitingInput, "q", QUALITY_MAX),
        SessionState::Aborted
    );
    assert_eq!(
        consume(SessionState::AwaitingInput, "s", QUALITY_MAX),
        SessionState::Skipped
    );
}

#[test]
fn rating_moves_to_applying() {
    assert_eq!(
        consume(SessionState::AwaitingInput, "4", QUALITY_MAX),
        SessionState::Applying(4)
    );
    assert_eq!(
        consume(SessionState::AwaitingInput, "0", RATING_MAX),
        SessionState::Applying(0)
    );
}

#[test]
fn terminal_states_absorb_input() {
    assert_eq!(
        consume(SessionState::Aborted, "5", QUALITY_MAX),
        SessionState::Aborted
    );
    assert_eq!(
        consume(SessionState::Skipped, "q", QUALITY_MAX),
        SessionState::Skipped
    );
    assert_eq!(
        consume(SessionState::Done, "s", QUALITY_MAX),
        SessionState::Done
    );
}
