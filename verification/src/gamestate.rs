//! Classification of a position: normal play, check, the game-ending states,
//! and the coarser game-over status that also covers resignation and agreed
//! draws.

use vstd::prelude::*;

verus! {

/// The rule-based classification of one position together with its legal-move
/// set. Checkmate and stalemate depend on move availability; the draw states
/// come from the fifty-move rule, threefold repetition and insufficient
/// material.
#[derive(Debug, Clone, Copy, PartialEq, Eq, Structural)]
pub enum GameState {
    Normal,
    Check,
    Checkmate,
    Stalemate,
    FiftyMove,
    Repetition,
    InsufficientMaterial,
}

impl GameState {
    /// True when the state is a win for the side that just moved.
    pub open spec fn spec_is_win(self) -> bool {
        self is Checkmate
    }

    /// True when the state is a win for the side that just moved.
    #[verifier::when_used_as_spec(spec_is_win)]
    pub fn is_win(self) -> (r: bool)
        ensures
            r == self.spec_is_win(),
    {
        match self {
            GameState::Checkmate => true,
            _ => false,
        }
    }

    /// True when the state ends the game by rule.
    pub open spec fn spec_is_terminal(self) -> bool {
        match self {
            GameState::Normal | GameState::Check => false,
            _ => true,
        }
    }

    /// True when the state ends the game by rule.
    #[verifier::when_used_as_spec(spec_is_terminal)]
    pub fn is_terminal(self) -> (r: bool)
        ensures
            r == self.spec_is_terminal(),
    {
        match self {
            GameState::Normal | GameState::Check => false,
            _ => true,
        }
    }

    /// A short description of the state.
    pub fn describe(self) -> (r: String)
        ensures
            r@ == self.spec_describe(),
    {
        match self {
            GameState::Normal => String::from_str("normal"),
            GameState::Check => String::from_str("check"),
            GameState::Checkmate => String::from_str("checkmate"),
            GameState::Stalemate => String::from_str("stalemate"),
            GameState::FiftyMove => String::from_str("fifty move rule"),
            GameState::Repetition => String::from_str("threefold repetition"),
            GameState::InsufficientMaterial => String::from_str("insufficient material"),
        }
    }

    /// The text of `describe`.
    pub open spec fn spec_describe(self) -> Seq<char> {
        match self {
            GameState::Normal => "normal"@,
            GameState::Check => "check"@,
            GameState::Checkmate => "checkmate"@,
            GameState::Stalemate => "stalemate"@,
            GameState::FiftyMove => "fifty move rule"@,
            GameState::Repetition => "threefold repetition"@,
            GameState::InsufficientMaterial => "insufficient material"@,
        }
    }
}

/// The coarse game-over status of a whole game: a resignation, an agreed
/// draw, or a rule-based termination wrapping its [`GameState`].
#[derive(Debug, Clone, Copy, PartialEq, Eq, Structural)]
pub enum GameOverState {
    WhiteResign,
    BlackResign,
    AgreedDraw,
    Forced(GameState),
}

impl GameOverState {
    /// The text of `describe`.
    pub open spec fn spec_describe(self) -> Seq<char> {
        match self {
            GameOverState::WhiteResign => "white resigned"@,
            GameOverState::BlackResign => "black resigned"@,
            GameOverState::AgreedDraw => "draw agreed"@,
            GameOverState::Forced(gs) => "forced: "@ + gs.spec_describe(),
        }
    }

    /// A short description of the status.
    pub fn describe(self) -> (r: String)
        ensures
            r@ == self.spec_describe(),
    {
        match self {
            GameOverState::WhiteResign => String::from_str("white resigned"),
            GameOverState::BlackResign => String::from_str("black resigned"),
            GameOverState::AgreedDraw => String::from_str("draw agreed"),
            GameOverState::Forced(gs) => {
                let mut r = String::from_str("forced: ");
                let d = gs.describe();
                r.append(d.as_str());
                r
            },
        }
    }
}

} // verus!
