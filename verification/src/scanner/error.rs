//! The lexer's error: an unrecognized character at a known position.

use vstd::prelude::*;

use crate::scanner::Position;

verus! {

/// Reported when the lexer meets a character no token can start with.
/// Lexing terminates at that point; the error carries the character's
/// position.
#[derive(Debug)]
pub struct ScanError {
    pub code: i32,
    pub describe: String,
    pub position: Position,
}

impl ScanError {
    /// The one way a `ScanError` arises: an unexpected character at
    /// `position`.
    pub fn from(position: Position) -> (r: Self)
        ensures
            r.code == 300,
            r.describe@ == "unexpected char"@,
            r.position == position,
    {
        Self { code: 300, describe: String::from_str("unexpected char"), position }
    }
}

impl Clone for ScanError {
    fn clone(&self) -> (r: Self)
        ensures
            r == *self,
    {
        Self { code: self.code, describe: self.describe.clone(), position: self.position }
    }
}

} // verus!
