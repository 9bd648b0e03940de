//! The unified error taxonomy: lexing, parsing and end-of-input errors,
//! carried through every production unchanged (fail-fast, first defect only).

use vstd::prelude::*;

use crate::parser::ast::ParseError;
use crate::scanner::error::ScanError;

verus! {

/// Reported when the token stream ends while a production still requires a
/// token. It carries no position: there is none past the end of the input.
#[derive(Debug)]
pub struct NoContentError {
    pub code: i32,
    pub describe: String,
}

impl NoContentError {
    pub fn new() -> (r: Self)
        ensures
            r.code == 500,
            r.describe@ == "Unexpected end of input"@,
    {
        Self { code: 500, describe: String::from_str("Unexpected end of input") }
    }
}

impl Clone for NoContentError {
    fn clone(&self) -> (r: Self)
        ensures
            r == *self,
    {
        Self { code: self.code, describe: self.describe.clone() }
    }
}

impl ParseError {
    /// A lexing error met while pulling tokens during parsing becomes a
    /// parse error with the same description and position, so parser
    /// callers handle one error family.
    pub fn from_scan(error: ScanError) -> (r: Self)
        ensures
            r.code == 400,
            r.describe@ == error.describe@,
            r.position == error.position,
    {
        Self { code: 400, describe: error.describe, position: error.position }
    }
}

/// Any error of the front end: lexing, parsing, or premature end of input.
#[derive(Debug)]
pub enum SyntaxError {
    ScanError(ScanError),
    ParseError(ParseError),
    NoContentError(NoContentError),
}

impl Clone for SyntaxError {
    fn clone(&self) -> (r: Self)
        ensures
            r == *self,
    {
        match self {
            SyntaxError::ScanError(e) => SyntaxError::ScanError(e.clone()),
            SyntaxError::ParseError(e) => SyntaxError::ParseError(e.clone()),
            SyntaxError::NoContentError(e) => SyntaxError::NoContentError(e.clone()),
        }
    }
}

} // verus!
