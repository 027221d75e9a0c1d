//! The interactive review session state machine.
//!
//! A prompt accepts one line of text; the accepted tokens are exactly one
//! character long: `q` (quit the whole run), `s` (skip this entity), or a
//! single digit at most the algorithm's highest rating. Anything else is
//! invalid and re-prompts.

use vstd::prelude::*;

use vstd::string::StrSliceExecFns;

verus! {

/// Highest accepted digit of the interval/ease model's quality scale.
pub const QUALITY_MAX: u32 = 5;

/// Highest accepted digit of the memory-state model's rating scale.
pub const RATING_MAX: u32 = 3;

/// One decoded line of interactive input.
#[derive(Clone, Copy, PartialEq, Eq, Structural, Debug)]
pub enum Token {
    /// `q`: abort the whole review run.
    Quit,
    /// `s`: leave this entity untouched and move on.
    Skip,
    /// A digit within the algorithm's rating range.
    Rating(u32),
    /// Anything else: wrong length, unknown character, digit out of range.
    Invalid,
}

/// States of the per-entity review session machine.
#[derive(Clone, Copy, PartialEq, Eq, Structural, Debug)]
pub enum SessionState {
    /// Waiting for a line of input.
    AwaitingInput,
    /// A line arrived and is being decoded.
    Validating(Token),
    /// A valid rating arrived; the algorithm and the store run next.
    Applying(u32),
    /// Both persistence writes succeeded.
    Done,
    /// The entity was left untouched.
    Skipped,
    /// The whole run stops here.
    Aborted,
}

/// The token a line of input decodes to, under the given highest digit.
pub open spec fn token_of(line: Seq<char>, max_rating: u32) -> Token {
    if line.len() != 1 {
        Token::Invalid
    } else if line[0] == 'q' {
        Token::Quit
    } else if line[0] == 's' {
        Token::Skip
    } else if '0' as u32 <= line[0] as u32 && line[0] as u32 <= '0' as u32 + max_rating {
        Token::Rating((line[0] as u32 - '0' as u32) as u32)
    } else {
        Token::Invalid
    }
}

/// Decode one line of input.
pub fn classify(line: &str, max_rating: u32) -> (t: Token)
    requires
        max_rating <= 9,
    ensures
        t == token_of(line@, max_rating),
        t matches Token::Rating(r) ==> r <= max_rating,
{
    let len = line.unicode_len();
    if len != 1 {
        return Token::Invalid;
    }
    let c = line.get_char(0);
    if c == 'q' {
        Token::Quit
    } else if c == 's' {
        Token::Skip
    } else {
        let cu: u32 = c as u32;
        let zero: u32 = '0' as u32;
        if zero <= cu && cu <= zero + max_rating {
            Token::Rating(cu - zero)
        } else {
            Token::Invalid
        }
    }
}

/// Receiving a line moves `AwaitingInput` to `Validating`; every other state
/// ignores input.
pub open spec fn receive_spec(s: SessionState, line: Seq<char>, max_rating: u32) -> SessionState {
    match s {
        SessionState::AwaitingInput => SessionState::Validating(token_of(line, max_rating)),
        _ => s,
    }
}

/// Validation resolves the decoded token: invalid input re-prompts, `q`
/// aborts the run, `s` skips the entity, and a rating moves on to apply the
/// algorithm. States other than `Validating` stay put.
pub open spec fn resolve_spec(s: SessionState) -> SessionState {
    match s {
        SessionState::Validating(Token::Invalid) => SessionState::AwaitingInput,
        SessionState::Validating(Token::Quit) => SessionState::Aborted,
        SessionState::Validating(Token::Skip) => SessionState::Skipped,
        SessionState::Validating(Token::Rating(n)) => SessionState::Applying(n),
        _ => s,
    }
}

/// One full step on a line of input: receive, then validate.
pub open spec fn consume_spec(s: SessionState, line: Seq<char>, max_rating: u32) -> SessionState {
    resolve_spec(receive_spec(s, line, max_rating))
}

/// Feed one line of input to the machine.
pub fn consume(s: SessionState, line: &str, max_rating: u32) -> (s2: SessionState)
    requires
        max_rating <= 9,
    ensures
        s2 == consume_spec(s, line@, max_rating),
{
    match s {
        SessionState::AwaitingInput => {
            match classify(line, max_rating) {
                Token::Invalid => SessionState::AwaitingInput,
                Token::Quit => SessionState::Aborted,
                Token::Skip => SessionState::Skipped,
                Token::Rating(n) => SessionState::Applying(n),
            }
        },
        SessionState::Validating(t) => {
            match t {
                Token::Invalid => SessionState::AwaitingInput,
                Token::Quit => SessionState::Aborted,
                Token::Skip => SessionState::Skipped,
                Token::Rating(n) => SessionState::Applying(n),
            }
        },
        _ => s,
    }
}

/// An invalid token fed to `AwaitingInput` lands back in `AwaitingInput`:
/// the session only re-prompts.
pub proof fn lemma_invalid_input_reprompts(line: Seq<char>, max_rating: u32)
    requires
        token_of(line, max_rating) is Invalid,
    ensures
        consume_spec(SessionState::AwaitingInput, line, max_rating)
            == SessionState::AwaitingInput,
{
}

/// A rating the machine accepts from the prompt is never above the scale's
/// highest digit.
pub proof fn lemma_rating_in_range(line: Seq<char>, max_rating: u32)
    ensures
        consume_spec(SessionState::AwaitingInput, line, max_rating)
            matches SessionState::Applying(n) ==> n <= max_rating,
{
}

} // verus!
