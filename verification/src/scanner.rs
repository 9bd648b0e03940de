//! The lexer: positions, token kinds, positioned tokens, and the `Scanner`
//! that turns source text into a token stream, verified against the model in
//! `lexing`.

pub mod error;

use vstd::prelude::*;

use crate::lexing::{
    alnum_pred, col_of, digit_pred, lemma_col_le_len, lemma_run_end, lexeme_text, not_char_pred,
    row_of, run_end, scan_token, space_pred, LexedTok, Lexeme,
};
use crate::utils::{is_alpha, is_alphadigital, is_digital, is_space};
use error::ScanError;

verus! {

/// A source location: 0-based row and column, counted per character. A
/// newline advances the row and resets the column.
#[derive(Clone, Copy, PartialEq, Eq, Structural, Debug)]
pub struct Position {
    pub row: usize,
    pub col: usize,
}

impl Position {
    pub fn new(row: usize, col: usize) -> (r: Self)
        ensures
            r == (Position { row, col }),
    {
        Self { row, col }
    }
}

impl core::default::Default for Position {
    /// The origin: row 0, column 0.
    fn default() -> (r: Self)
        ensures
            r == (Position { row: 0usize, col: 0usize }),
    {
        Position { row: 0, col: 0 }
    }
}

/// The kind of a token, with the recorded text of literal-bearing kinds.
/// Digit runs are kept as their digit text, so the exact literal (and hence
/// its length on the source line) is preserved.
#[derive(Debug)]
pub enum TokenRow {
    Dot,
    Comma,
    Semicolon,
    Plus,
    Minus,
    Start,
    Div,
    Eq,
    DoubleEq,
    Exclamation,
    NotEq,
    Greater,
    Less,
    GreaterEq,
    LessEq,
    LeftParent,
    RightParent,
    LeftBrace,
    RightBrace,
    Digital(String),
    String(String),
    Space(String),
    Identifier(String),
    Let,
    Function,
    Return,
    If,
    Else,
    For,
    While,
    Continue,
    Break,
    True,
    False,
    Null,
    This,
}

impl View for TokenRow {
    type V = Lexeme;

    open spec fn view(&self) -> Lexeme {
        match self {
            TokenRow::Dot => Lexeme::Dot,
            TokenRow::Comma => Lexeme::Comma,
            TokenRow::Semicolon => Lexeme::Semicolon,
            TokenRow::Plus => Lexeme::Plus,
            TokenRow::Minus => Lexeme::Minus,
            TokenRow::Start => Lexeme::Start,
            TokenRow::Div => Lexeme::Div,
            TokenRow::Eq => Lexeme::Eq,
            TokenRow::DoubleEq => Lexeme::DoubleEq,
            TokenRow::Exclamation => Lexeme::Exclamation,
            TokenRow::NotEq => Lexeme::NotEq,
            TokenRow::Greater => Lexeme::Greater,
            TokenRow::Less => Lexeme::Less,
            TokenRow::GreaterEq => Lexeme::GreaterEq,
            TokenRow::LessEq => Lexeme::LessEq,
            TokenRow::LeftParent => Lexeme::LeftParent,
            TokenRow::RightParent => Lexeme::RightParent,
            TokenRow::LeftBrace => Lexeme::LeftBrace,
            TokenRow::RightBrace => Lexeme::RightBrace,
            TokenRow::Digital(s) => Lexeme::Digital(s@),
            TokenRow::String(s) => Lexeme::StringLit(s@),
            TokenRow::Space(s) => Lexeme::Space(s@),
            TokenRow::Identifier(s) => Lexeme::Identifier(s@),
            TokenRow::Let => Lexeme::Let,
            TokenRow::Function => Lexeme::Function,
            TokenRow::Return => Lexeme::Return,
            TokenRow::If => Lexeme::If,
            TokenRow::Else => Lexeme::Else,
            TokenRow::For => Lexeme::For,
            TokenRow::While => Lexeme::While,
            TokenRow::Continue => Lexeme::Continue,
            TokenRow::Break => Lexeme::Break,
            TokenRow::True => Lexeme::True,
            TokenRow::False => Lexeme::False,
            TokenRow::Null => Lexeme::Null,
            TokenRow::This => Lexeme::This,
        }
    }
}

impl TokenRow {
    /// The text this token stands for in the source (for literal-bearing
    /// kinds, the recorded text itself).
    pub fn to_string(&self) -> (r: String)
        ensures
            r@ == lexeme_text(self@),
    {
        match self {
            TokenRow::Dot => String::from_str("."),
            TokenRow::Comma => String::from_str(","),
            TokenRow::Semicolon => String::from_str(";"),
            TokenRow::Plus => String::from_str("+"),
            TokenRow::Minus => String::from_str("-"),
            TokenRow::Start => String::from_str("*"),
            TokenRow::Div => String::from_str("/"),
            TokenRow::Eq => String::from_str("="),
            TokenRow::DoubleEq => String::from_str("=="),
            TokenRow::Exclamation => String::from_str("!"),
            TokenRow::NotEq => String::from_str("!="),
            TokenRow::Greater => String::from_str(">"),
            TokenRow::Less => String::from_str("<"),
            TokenRow::GreaterEq => String::from_str(">="),
            TokenRow::LessEq => String::from_str("<="),
            TokenRow::LeftParent => String::from_str("("),
            TokenRow::RightParent => String::from_str(")"),
            TokenRow::LeftBrace => String::from_str("{"),
            TokenRow::RightBrace => String::from_str("}"),
            TokenRow::Digital(digital) => digital.clone(),
            TokenRow::String(string) => string.clone(),
            TokenRow::Space(space) => space.clone(),
            TokenRow::Identifier(s) => s.clone(),
            TokenRow::Let => String::from_str("let"),
            TokenRow::Function => String::from_str("function"),
            TokenRow::Return => String::from_str("return"),
            TokenRow::If => String::from_str("if"),
            TokenRow::Else => String::from_str("else"),
            TokenRow::For => String::from_str("for"),
            TokenRow::While => String::from_str("while"),
            TokenRow::Continue => String::from_str("continue"),
            TokenRow::Break => String::from_str("break"),
            TokenRow::True => String::from_str("true"),
            TokenRow::False => String::from_str("false"),
            TokenRow::Null => String::from_str("null"),
            TokenRow::This => String::from_str("this"),
        }
    }
}

impl Clone for TokenRow {
    fn clone(&self) -> (r: Self)
        ensures
            r == *self,
    {
        match self {
            TokenRow::Dot => TokenRow::Dot,
            TokenRow::Comma => TokenRow::Comma,
            TokenRow::Semicolon => TokenRow::Semicolon,
            TokenRow::Plus => TokenRow::Plus,
            TokenRow::Minus => TokenRow::Minus,
            TokenRow::Start => TokenRow::Start,
            TokenRow::Div => TokenRow::Div,
            TokenRow::Eq => TokenRow::Eq,
            TokenRow::DoubleEq => TokenRow::DoubleEq,
            TokenRow::Exclamation => TokenRow::Exclamation,
            TokenRow::NotEq => TokenRow::NotEq,
            TokenRow::Greater => TokenRow::Greater,
            TokenRow::Less => TokenRow::Less,
            TokenRow::GreaterEq => TokenRow::GreaterEq,
            TokenRow::LessEq => TokenRow::LessEq,
            TokenRow::LeftParent => TokenRow::LeftParent,
            TokenRow::RightParent => TokenRow::RightParent,
            TokenRow::LeftBrace => TokenRow::LeftBrace,
            TokenRow::RightBrace => TokenRow::RightBrace,
            TokenRow::Digital(s) => TokenRow::Digital(s.clone()),
            TokenRow::String(s) => TokenRow::String(s.clone()),
            TokenRow::Space(s) => TokenRow::Space(s.clone()),
            TokenRow::Identifier(s) => TokenRow::Identifier(s.clone()),
            TokenRow::Let => TokenRow::Let,
            TokenRow::Function => TokenRow::Function,
            TokenRow::Return => TokenRow::Return,
            TokenRow::If => TokenRow::If,
            TokenRow::Else => TokenRow::Else,
            TokenRow::For => TokenRow::For,
            TokenRow::While => TokenRow::While,
            TokenRow::Continue => TokenRow::Continue,
            TokenRow::Break => TokenRow::Break,
            TokenRow::True => TokenRow::True,
            TokenRow::False => TokenRow::False,
            TokenRow::Null => TokenRow::Null,
            TokenRow::This => TokenRow::This,
        }
    }
}

impl PartialEq for TokenRow {
    /// Two token kinds are equal when they are the same kind with the same
    /// recorded text.
    #[verifier::rlimit(50)]
    fn eq(&self, other: &Self) -> (r: bool)
        ensures
            r == (self@ == other@),
    {
        match (self, other) {
            (TokenRow::Dot, TokenRow::Dot) => true,
            (TokenRow::Comma, TokenRow::Comma) => true,
            (TokenRow::Semicolon, TokenRow::Semicolon) => true,
            (TokenRow::Plus, TokenRow::Plus) => true,
            (TokenRow::Minus, TokenRow::Minus) => true,
            (TokenRow::Start, TokenRow::Start) => true,
            (TokenRow::Div, TokenRow::Div) => true,
            (TokenRow::Eq, TokenRow::Eq) => true,
            (TokenRow::DoubleEq, TokenRow::DoubleEq) => true,
            (TokenRow::Exclamation, TokenRow::Exclamation) => true,
            (TokenRow::NotEq, TokenRow::NotEq) => true,
            (TokenRow::Greater, TokenRow::Greater) => true,
            (TokenRow::Less, TokenRow::Less) => true,
            (TokenRow::GreaterEq, TokenRow::GreaterEq) => true,
            (TokenRow::LessEq, TokenRow::LessEq) => true,
            (TokenRow::LeftParent, TokenRow::LeftParent) => true,
            (TokenRow::RightParent, TokenRow::RightParent) => true,
            (TokenRow::LeftBrace, TokenRow::LeftBrace) => true,
            (TokenRow::RightBrace, TokenRow::RightBrace) => true,
            (TokenRow::Digital(a), TokenRow::Digital(b)) => *a == *b,
            (TokenRow::String(a), TokenRow::String(b)) => *a == *b,
            (TokenRow::Space(a), TokenRow::Space(b)) => *a == *b,
            (TokenRow::Identifier(a), TokenRow::Identifier(b)) => *a == *b,
            (TokenRow::Let, TokenRow::Let) => true,
            (TokenRow::Function, TokenRow::Function) => true,
            (TokenRow::Return, TokenRow::Return) => true,
            (TokenRow::If, TokenRow::If) => true,
            (TokenRow::Else, TokenRow::Else) => true,
            (TokenRow::For, TokenRow::For) => true,
            (TokenRow::While, TokenRow::While) => true,
            (TokenRow::Continue, TokenRow::Continue) => true,
            (TokenRow::Break, TokenRow::Break) => true,
            (TokenRow::True, TokenRow::True) => true,
            (TokenRow::False, TokenRow::False) => true,
            (TokenRow::Null, TokenRow::Null) => true,
            (TokenRow::This, TokenRow::This) => true,
            _ => false,
        }
    }
}

impl vstd::std_specs::cmp::PartialEqSpecImpl for TokenRow {
    open spec fn obeys_eq_spec() -> bool {
        true
    }

    open spec fn eq_spec(&self, other: &Self) -> bool {
        self@ == other@
    }
}

/// A classified, positioned lexical unit: the token kind and the position of
/// its first character.
#[derive(Debug)]
pub struct Token {
    pub token: TokenRow,
    pub position: Position,
}

impl View for Token {
    type V = LexedTok;

    open spec fn view(&self) -> LexedTok {
        LexedTok { lex: self.token@, row: self.position.row as nat, col: self.position.col as nat }
    }
}

impl Token {
    pub fn new(token: TokenRow, position: Position) -> (r: Self)
        ensures
            r == (Token { token, position }),
    {
        Self { token, position }
    }
}

impl Clone for Token {
    fn clone(&self) -> (r: Self)
        ensures
            r == *self,
    {
        Token { token: self.token.clone(), position: self.position }
    }
}

impl PartialEq for Token {
    /// Two tokens are equal when their kinds (with text) and positions are.
    fn eq(&self, other: &Self) -> (r: bool)
        ensures
            r == (self@ == other@),
    {
        self.token == other.token && self.position == other.position
    }
}

impl vstd::std_specs::cmp::PartialEqSpecImpl for Token {
    open spec fn obeys_eq_spec() -> bool {
        true
    }

    open spec fn eq_spec(&self, other: &Self) -> bool {
        self@ == other@
    }
}

/// Resolves identifier text against the reserved-word table.
fn lookup_keyword(s: &String) -> (r: Option<TokenRow>)
    ensures
        match r {
            Some(t) => crate::lexing::keyword_of(s@) == Some(t@),
            None => crate::lexing::keyword_of(s@) is None,
        },
{
    if *s == String::from_str("let") {
        Some(TokenRow::Let)
    } else if *s == String::from_str("function") {
        Some(TokenRow::Function)
    } else if *s == String::from_str("return") {
        Some(TokenRow::Return)
    } else if *s == String::from_str("if") {
        Some(TokenRow::If)
    } else if *s == String::from_str("else") {
        Some(TokenRow::Else)
    } else if *s == String::from_str("for") {
        Some(TokenRow::For)
    } else if *s == String::from_str("while") {
        Some(TokenRow::While)
    } else if *s == String::from_str("continue") {
        Some(TokenRow::Continue)
    } else if *s == String::from_str("break") {
        Some(TokenRow::Break)
    } else if *s == String::from_str("true") {
        Some(TokenRow::True)
    } else if *s == String::from_str("false") {
        Some(TokenRow::False)
    } else if *s == String::from_str("null") {
        Some(TokenRow::Null)
    } else if *s == String::from_str("this") {
        Some(TokenRow::This)
    } else {
        None
    }
}

/// The lexer. It walks the source text character by character, tracks the
/// current position, and accumulates the text of the token being scanned
/// (the stretch from `start` to `index`). After an unrecognized character it
/// is `done`: the token sequence has ended for good.
#[derive(Debug)]
pub struct Scanner<'a> {
    source: &'a str,
    length: usize,
    index: usize,
    start: usize,
    position: Position,
    done: bool,
}

impl<'a> Scanner<'a> {
    /// The source as a character sequence.
    pub closed spec fn src(&self) -> Seq<char> {
        self.source@
    }

    /// How many characters have been consumed.
    pub closed spec fn at(&self) -> int {
        self.index as int
    }

    /// Where the text of the token being scanned begins.
    pub closed spec fn mark(&self) -> int {
        self.start as int
    }

    /// Whether the scanner has met an unrecognized character and stopped.
    pub closed spec fn is_done(&self) -> bool {
        self.done
    }

    /// The position counter, as the callers see it through `get_position`.
    pub closed spec fn pos(&self) -> Position {
        self.position
    }

    /// Well-formed: the counters lie within the source and the position is
    /// exactly the row and column after the consumed prefix.
    pub closed spec fn wf(&self) -> bool {
        &&& self.length == self.source@.len()
        &&& self.start <= self.index <= self.length
        &&& self.position.row == row_of(self.source@.take(self.index as int))
        &&& self.position.col == col_of(self.source@.take(self.index as int))
    }

    /// What well-formedness says of the position counter: it is exactly the
    /// row and column after the consumed prefix.
    pub proof fn lemma_position_meaning(&self)
        requires
            self.wf(),
        ensures
            self.pos().row == row_of(self.src().take(self.at())),
            self.pos().col == col_of(self.src().take(self.at())),
    {
    }

    pub fn new(source: &'a str) -> (r: Self)
        ensures
            r.wf(),
            r.src() == source@,
            r.at() == 0,
            r.mark() == 0,
            !r.is_done(),
    {
        let length = source.unicode_len();
        let r = Self {
            source,
            length,
            index: 0,
            start: 0,
            position: Position::default(),
            done: false,
        };
        proof {
            assert(source@.take(0) =~= Seq::<char>::empty());
        }
        r
    }

    /// The position of the next character to be consumed.
    pub fn get_position(&self) -> (r: Position)
        ensures
            r == self.pos(),
    {
        self.position
    }

    /// Forgets the accumulated text: the next token's text begins here.
    pub fn clear(&mut self)
        ensures
            final(self).mark() == old(self).at(),
            final(self).at() == old(self).at(),
            final(self).src() == old(self).src(),
            final(self).is_done() == old(self).is_done(),
            final(self).pos() == old(self).pos(),
            old(self).wf() ==> final(self).wf(),
    {
        self.start = self.index;
    }

    /// Consumes one character, advancing the position counter: a newline
    /// moves to the start of the next row, anything else moves one column.
    pub fn advance(&mut self) -> (r: Option<char>)
        requires
            old(self).wf(),
        ensures
            final(self).wf(),
            final(self).src() == old(self).src(),
            final(self).mark() == old(self).mark(),
            final(self).is_done() == old(self).is_done(),
            if old(self).at() < old(self).src().len() {
                r == Some(old(self).src()[old(self).at()]) && final(self).at() == old(self).at()
                    + 1
            } else {
                r is None && *final(self) == *old(self)
            },
    {
        if self.index < self.length {
            let c = self.source.get_char(self.index);
            proof {
                lemma_col_le_len(self.source@.take(self.index as int));
                assert(self.source@.take(self.index as int + 1).drop_last() =~= self.source@.take(
                    self.index as int,
                ));
                assert(self.source@.take(self.index as int + 1).last() == self.source@[self.index as int]);
            }
            self.index = self.index + 1;
            if c == '\n' {
                self.position.col = 0;
                self.position.row = self.position.row + 1;
            } else {
                self.position.col = self.position.col + 1;
            }
            Some(c)
        } else {
            None
        }
    }

    /// Looks at the next character without consuming it.
    pub fn get_next(&mut self) -> (r: Option<char>)
        requires
            old(self).wf(),
        ensures
            *final(self) == *old(self),
            r == (if old(self).at() < old(self).src().len() {
                Some(old(self).src()[old(self).at()])
            } else {
                None::<char>
            }),
    {
        if self.index < self.length {
            Some(self.source.get_char(self.index))
        } else {
            None
        }
    }

    /// Whether the next character is exactly `expected`.
    pub fn next_is_expected(&mut self, expected: char) -> (r: bool)
        requires
            old(self).wf(),
        ensures
            *final(self) == *old(self),
            r == (old(self).at() < old(self).src().len() && old(self).src()[old(self).at()]
                == expected),
    {
        match self.get_next() {
            Some(ch) => ch == expected,
            None => false,
        }
    }

    /// Whether the next character satisfies `func`, a test that decides the
    /// predicate `p`.
    pub fn next_is_expected_by<F: Fn(char) -> bool>(
        &mut self,
        func: &F,
        Ghost(p): Ghost<spec_fn(char) -> bool>,
    ) -> (r: bool)
        requires
            old(self).wf(),
            forall|c: char| call_requires(*func, (c,)),
            forall|c: char, b: bool| call_ensures(*func, (c,), b) ==> b == p(c),
        ensures
            *final(self) == *old(self),
            r == (old(self).at() < old(self).src().len() && p(old(self).src()[old(self).at()])),
    {
        match self.get_next() {
            Some(ch) => func(ch),
            None => false,
        }
    }

    /// Consumes characters up to (not including) the next `expected`, or up
    /// to the end of the input if `expected` never occurs.
    pub fn advance_until(&mut self, expected: char)
        requires
            old(self).wf(),
        ensures
            final(self).wf(),
            final(self).src() == old(self).src(),
            final(self).mark() == old(self).mark(),
            final(self).is_done() == old(self).is_done(),
            final(self).at() == run_end(old(self).src(), old(self).at(), not_char_pred(expected)),
    {
        proof {
            lemma_run_end(self.source@, self.index as int, not_char_pred(expected));
        }
        while self.next_is_expected(expected) == false && self.index < self.length
            invariant
                self.wf(),
                self.src() == old(self).src(),
                self.mark() == old(self).mark(),
                self.is_done() == old(self).is_done(),
                old(self).at() <= self.at() <= self.src().len(),
                run_end(self.src(), self.at(), not_char_pred(expected)) == run_end(
                    self.src(),
                    old(self).at(),
                    not_char_pred(expected),
                ),
            decreases self.src().len() - self.at(),
        {
            self.advance();
        }
    }

    /// Consumes characters as long as they satisfy `func`, a test that
    /// decides the predicate `p`.
    pub fn advance_until_by<F: Fn(char) -> bool>(
        &mut self,
        func: &F,
        Ghost(p): Ghost<spec_fn(char) -> bool>,
    )
        requires
            old(self).wf(),
            forall|c: char| call_requires(*func, (c,)),
            forall|c: char, b: bool| call_ensures(*func, (c,), b) ==> b == p(c),
        ensures
            final(self).wf(),
            final(self).src() == old(self).src(),
            final(self).mark() == old(self).mark(),
            final(self).is_done() == old(self).is_done(),
            final(self).at() == run_end(old(self).src(), old(self).at(), p),
    {
        proof {
            lemma_run_end(self.source@, self.index as int, p);
        }
        while self.next_is_expected_by(func, Ghost(p))
            invariant
                self.wf(),
                self.src() == old(self).src(),
                self.mark() == old(self).mark(),
                self.is_done() == old(self).is_done(),
                old(self).at() <= self.at() <= self.src().len(),
                forall|c: char| call_requires(*func, (c,)),
                forall|c: char, b: bool| call_ensures(*func, (c,), b) ==> b == p(c),
                run_end(self.src(), self.at(), p) == run_end(self.src(), old(self).at(), p),
            decreases self.src().len() - self.at(),
        {
            self.advance();
        }
    }

    /// The text accumulated since the last `clear`.
    fn buffered(&self) -> (r: String)
        requires
            self.wf(),
        ensures
            r@ == self.src().subrange(self.mark(), self.at()),
    {
        self.source.substring_char(self.start, self.index).to_owned()
    }

    /// Consumes the rest of a digit run and returns the digit text
    /// accumulated for this token.
    pub fn get_number(&mut self) -> (r: String)
        requires
            old(self).wf(),
        ensures
            final(self).wf(),
            final(self).src() == old(self).src(),
            final(self).mark() == old(self).mark(),
            final(self).is_done() == old(self).is_done(),
            final(self).at() == run_end(old(self).src(), old(self).at(), digit_pred()),
            r@ == old(self).src().subrange(old(self).mark(), final(self).at()),
    {
        self.advance_until_by(&is_digital, Ghost(digit_pred()));
        self.buffered()
    }

    /// Consumes up to and including the closing quote (or the end of input if
    /// the string is unterminated) and returns the text accumulated for this
    /// token: everything before the closing quote.
    pub fn get_string(&mut self) -> (r: String)
        requires
            old(self).wf(),
        ensures
            final(self).wf(),
            final(self).src() == old(self).src(),
            final(self).mark() == old(self).mark(),
            final(self).is_done() == old(self).is_done(),
            ({
                let q = run_end(old(self).src(), old(self).at(), not_char_pred('"'));
                r@ == old(self).src().subrange(old(self).mark(), q) && final(self).at() == (if q
                    < old(self).src().len() {
                    q + 1
                } else {
                    q
                })
            }),
    {
        self.advance_until('"');
        let s = self.buffered();
        self.advance();
        s
    }

    /// Consumes the rest of an identifier run and returns the text
    /// accumulated for this token.
    pub fn get_identifier(&mut self) -> (r: String)
        requires
            old(self).wf(),
        ensures
            final(self).wf(),
            final(self).src() == old(self).src(),
            final(self).mark() == old(self).mark(),
            final(self).is_done() == old(self).is_done(),
            final(self).at() == run_end(old(self).src(), old(self).at(), alnum_pred()),
            r@ == old(self).src().subrange(old(self).mark(), final(self).at()),
    {
        self.advance_until_by(&is_alphadigital, Ghost(alnum_pred()));
        self.buffered()
    }

    /// Scans one token. Yields the token with the position of its first
    /// character; `None` once the input is exhausted; or, at an unrecognized
    /// character, the `ScanError` carrying that character's position, after
    /// which the scanner yields nothing more.
    pub fn scan(&mut self) -> (r: Option<Result<Token, ScanError>>)
        requires
            old(self).wf(),
            old(self).mark() == old(self).at(),
        ensures
            final(self).wf(),
            final(self).src() == old(self).src(),
            final(self).mark() == final(self).at(),
            if old(self).is_done() || old(self).at() >= old(self).src().len() {
                r is None && *final(self) == *old(self)
            } else {
                match scan_token(old(self).src(), old(self).at()) {
                    Some((lex, j)) => {
                        &&& r matches Some(Ok(t)) && t.token@ == lex && t.position == old(
                            self,
                        ).pos()
                        &&& final(self).at() == j
                        &&& !final(self).is_done()
                    },
                    None => {
                        &&& r matches Some(Err(e)) && e.code == 300 && e.describe@
                            == "unexpected char"@ && e.position == old(self).pos()
                        &&& final(self).is_done()
                    },
                }
            },
    {
        if self.done {
            return None;
        }
        let position = self.get_position();
        let ch = self.advance();
        let c = match ch {
            Some(c) => c,
            None => {
                return None;
            },
        };
        let token_row = if c == '.' {
            TokenRow::Dot
        } else if c == ',' {
            TokenRow::Comma
        } else if c == ';' {
            TokenRow::Semicolon
        } else if c == '+' {
            TokenRow::Plus
        } else if c == '-' {
            TokenRow::Minus
        } else if c == '*' {
            TokenRow::Start
        } else if c == '/' {
            TokenRow::Div
        } else if c == '(' {
            TokenRow::LeftParent
        } else if c == ')' {
            TokenRow::RightParent
        } else if c == '{' {
            TokenRow::LeftBrace
        } else if c == '}' {
            TokenRow::RightBrace
        } else if c == ' ' || c == '\n' || c == '\t' {
            TokenRow::Space(self.get_space())
        } else if c == '=' {
            if self.next_is_expected('=') {
                self.advance();
                TokenRow::DoubleEq
            } else {
                TokenRow::Eq
            }
        } else if c == '!' {
            if self.next_is_expected('=') {
                self.advance();
                TokenRow::NotEq
            } else {
                TokenRow::Exclamation
            }
        } else if c == '>' {
            if self.next_is_expected('=') {
                self.advance();
                TokenRow::GreaterEq
            } else {
                TokenRow::Greater
            }
        } else if c == '<' {
            if self.next_is_expected('=') {
                self.advance();
                TokenRow::LessEq
            } else {
                TokenRow::Less
            }
        } else if c == '"' {
            TokenRow::String(self.get_string())
        } else if is_digital(c) {
            TokenRow::Digital(self.get_number())
        } else if is_alpha(c) {
            let identifier = self.get_identifier();
            match lookup_keyword(&identifier) {
                Some(t) => t,
                None => TokenRow::Identifier(identifier),
            }
        } else {
            self.done = true;
            self.clear();
            return Some(Err(ScanError::from(position)));
        };
        self.clear();
        Some(Ok(Token::new(token_row, position)))
    }

    /// Consumes the rest of a whitespace run and returns the text
    /// accumulated for this token.
    pub fn get_space(&mut self) -> (r: String)
        requires
            old(self).wf(),
        ensures
            final(self).wf(),
            final(self).src() == old(self).src(),
            final(self).mark() == old(self).mark(),
            final(self).is_done() == old(self).is_done(),
            final(self).at() == run_end(old(self).src(), old(self).at(), space_pred()),
            r@ == old(self).src().subrange(old(self).mark(), final(self).at()),
    {
        self.advance_until_by(&is_space, Ghost(space_pred()));
        self.buffered()
    }
}

} // verus!
