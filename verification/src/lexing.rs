//! Mathematical model of the lexer: what token starts at each character
//! position of the source, and where rows and columns stand after a prefix
//! has been consumed. The executable `Scanner` is verified against this
//! model, token by token.

use vstd::prelude::*;

use crate::utils::{is_alnum_char, is_alpha_char, is_digit_char, is_space_char};

verus! {

/// The kind of a token, at the specification level: textual payloads are
/// plain character sequences.
pub enum Lexeme {
    Dot,
    Comma,
    Semicolon,
    Plus,
    Minus,
    Start,
    Div,
    Eq,
    DoubleEq,
    Exclamation,
    NotEq,
    Greater,
    Less,
    GreaterEq,
    LessEq,
    LeftParent,
    RightParent,
    LeftBrace,
    RightBrace,
    Digital(Seq<char>),
    StringLit(Seq<char>),
    Space(Seq<char>),
    Identifier(Seq<char>),
    Let,
    Function,
    Return,
    If,
    Else,
    For,
    While,
    Continue,
    Break,
    True,
    False,
    Null,
    This,
}

/// The reserved-word table: identifier text that names a keyword resolves to
/// that keyword's lexeme; any other text stays an identifier.
pub open spec fn keyword_of(t: Seq<char>) -> Option<Lexeme> {
    if t == "let"@ {
        Some(Lexeme::Let)
    } else if t == "function"@ {
        Some(Lexeme::Function)
    } else if t == "return"@ {
        Some(Lexeme::Return)
    } else if t == "if"@ {
        Some(Lexeme::If)
    } else if t == "else"@ {
        Some(Lexeme::Else)
    } else if t == "for"@ {
        Some(Lexeme::For)
    } else if t == "while"@ {
        Some(Lexeme::While)
    } else if t == "continue"@ {
        Some(Lexeme::Continue)
    } else if t == "break"@ {
        Some(Lexeme::Break)
    } else if t == "true"@ {
        Some(Lexeme::True)
    } else if t == "false"@ {
        Some(Lexeme::False)
    } else if t == "null"@ {
        Some(Lexeme::Null)
    } else if t == "this"@ {
        Some(Lexeme::This)
    } else {
        None
    }
}

/// What an identifier-shaped run of text lexes to: a keyword or an identifier.
pub open spec fn ident_lexeme(t: Seq<char>) -> Lexeme {
    match keyword_of(t) {
        Some(l) => l,
        None => Lexeme::Identifier(t),
    }
}

/// The text a lexeme stands for, as the lexer recorded it.
pub open spec fn lexeme_text(l: Lexeme) -> Seq<char> {
    match l {
        Lexeme::Dot => "."@,
        Lexeme::Comma => ","@,
        Lexeme::Semicolon => ";"@,
        Lexeme::Plus => "+"@,
        Lexeme::Minus => "-"@,
        Lexeme::Start => "*"@,
        Lexeme::Div => "/"@,
        Lexeme::Eq => "="@,
        Lexeme::DoubleEq => "=="@,
        Lexeme::Exclamation => "!"@,
        Lexeme::NotEq => "!="@,
        Lexeme::Greater => ">"@,
        Lexeme::Less => "<"@,
        Lexeme::GreaterEq => ">="@,
        Lexeme::LessEq => "<="@,
        Lexeme::LeftParent => "("@,
        Lexeme::RightParent => ")"@,
        Lexeme::LeftBrace => "{"@,
        Lexeme::RightBrace => "}"@,
        Lexeme::Digital(t) => t,
        Lexeme::StringLit(t) => t,
        Lexeme::Space(t) => t,
        Lexeme::Identifier(t) => t,
        Lexeme::Let => "let"@,
        Lexeme::Function => "function"@,
        Lexeme::Return => "return"@,
        Lexeme::If => "if"@,
        Lexeme::Else => "else"@,
        Lexeme::For => "for"@,
        Lexeme::While => "while"@,
        Lexeme::Continue => "continue"@,
        Lexeme::Break => "break"@,
        Lexeme::True => "true"@,
        Lexeme::False => "false"@,
        Lexeme::Null => "null"@,
        Lexeme::This => "this"@,
    }
}

/// The row counter after consuming `s`: one past each newline.
pub open spec fn row_of(s: Seq<char>) -> nat
    decreases s.len(),
{
    if s.len() == 0 {
        0
    } else if s.last() == '\n' {
        row_of(s.drop_last()) + 1
    } else {
        row_of(s.drop_last())
    }
}

/// The column counter after consuming `s`: characters since the last newline,
/// reset to zero by a newline.
pub open spec fn col_of(s: Seq<char>) -> nat
    decreases s.len(),
{
    if s.len() == 0 {
        0
    } else if s.last() == '\n' {
        0
    } else {
        col_of(s.drop_last()) + 1
    }
}

pub proof fn lemma_col_le_len(s: Seq<char>)
    ensures
        col_of(s) <= s.len(),
        row_of(s) <= s.len(),
    decreases s.len(),
{
    if s.len() > 0 {
        lemma_col_le_len(s.drop_last());
    }
}

/// The run predicates, as named values, so that the model and the scanner's
/// contracts speak of one and the same predicate.
pub open spec fn space_pred() -> spec_fn(char) -> bool {
    |ch: char| is_space_char(ch)
}

pub open spec fn digit_pred() -> spec_fn(char) -> bool {
    |ch: char| is_digit_char(ch)
}

pub open spec fn alnum_pred() -> spec_fn(char) -> bool {
    |ch: char| is_alnum_char(ch)
}

/// Characters other than `expected`: the run consumed by `advance_until`.
pub open spec fn not_char_pred(expected: char) -> spec_fn(char) -> bool {
    |ch: char| ch != expected
}

/// The first index at or after `i` whose character fails `p` (or the end of
/// the text): the end of the run of `p`-characters starting at `i`.
pub open spec fn run_end(s: Seq<char>, i: int, p: spec_fn(char) -> bool) -> int
    decreases s.len() - i,
    when 0 <= i <= s.len()
{
    if i < s.len() && p(s[i]) {
        run_end(s, i + 1, p)
    } else {
        i
    }
}

pub proof fn lemma_run_end(s: Seq<char>, i: int, p: spec_fn(char) -> bool)
    requires
        0 <= i <= s.len(),
    ensures
        i <= run_end(s, i, p) <= s.len(),
        forall|k: int| i <= k < run_end(s, i, p) ==> p(s[k]),
        run_end(s, i, p) < s.len() ==> !p(s[run_end(s, i, p)]),
    decreases s.len() - i,
{
    if i < s.len() && p(s[i]) {
        lemma_run_end(s, i + 1, p);
    }
}

/// The token beginning at character `i` of `s`: its lexeme and the index just
/// past the characters it consumed, or `None` for an unrecognized character.
/// Meaningful for `0 <= i < s.len()`.
pub open spec fn scan_token(s: Seq<char>, i: int) -> Option<(Lexeme, int)> {
    let c = s[i];
    if c == '.' {
        Some((Lexeme::Dot, i + 1))
    } else if c == ',' {
        Some((Lexeme::Comma, i + 1))
    } else if c == ';' {
        Some((Lexeme::Semicolon, i + 1))
    } else if c == '+' {
        Some((Lexeme::Plus, i + 1))
    } else if c == '-' {
        Some((Lexeme::Minus, i + 1))
    } else if c == '*' {
        Some((Lexeme::Start, i + 1))
    } else if c == '/' {
        Some((Lexeme::Div, i + 1))
    } else if c == '(' {
        Some((Lexeme::LeftParent, i + 1))
    } else if c == ')' {
        Some((Lexeme::RightParent, i + 1))
    } else if c == '{' {
        Some((Lexeme::LeftBrace, i + 1))
    } else if c == '}' {
        Some((Lexeme::RightBrace, i + 1))
    } else if is_space_char(c) {
        let j = run_end(s, i + 1, space_pred());
        Some((Lexeme::Space(s.subrange(i, j)), j))
    } else if c == '=' {
        if i + 1 < s.len() && s[i + 1] == '=' {
            Some((Lexeme::DoubleEq, i + 2))
        } else {
            Some((Lexeme::Eq, i + 1))
        }
    } else if c == '!' {
        if i + 1 < s.len() && s[i + 1] == '=' {
            Some((Lexeme::NotEq, i + 2))
        } else {
            Some((Lexeme::Exclamation, i + 1))
        }
    } else if c == '>' {
        if i + 1 < s.len() && s[i + 1] == '=' {
            Some((Lexeme::GreaterEq, i + 2))
        } else {
            Some((Lexeme::Greater, i + 1))
        }
    } else if c == '<' {
        if i + 1 < s.len() && s[i + 1] == '=' {
            Some((Lexeme::LessEq, i + 2))
        } else {
            Some((Lexeme::Less, i + 1))
        }
    } else if c == '"' {
        let q = run_end(s, i + 1, not_char_pred('"'));
        Some((Lexeme::StringLit(s.subrange(i, q)), if q < s.len() { q + 1 } else { q }))
    } else if is_digit_char(c) {
        let j = run_end(s, i + 1, digit_pred());
        Some((Lexeme::Digital(s.subrange(i, j)), j))
    } else if is_alpha_char(c) {
        let j = run_end(s, i + 1, alnum_pred());
        Some((ident_lexeme(s.subrange(i, j)), j))
    } else {
        None
    }
}

pub proof fn lemma_scan_token_bounds(s: Seq<char>, i: int)
    requires
        0 <= i < s.len(),
    ensures
        scan_token(s, i) matches Some((l, j)) ==> i < j <= s.len(),
{
    lemma_run_end(s, i + 1, space_pred());
    lemma_run_end(s, i + 1, not_char_pred('"'));
    lemma_run_end(s, i + 1, digit_pred());
    lemma_run_end(s, i + 1, alnum_pred());
}

/// A token's text never reaches past the characters it was scanned from:
/// its length fits between the token's start and the next token.
pub proof fn lemma_scan_token_len(s: Seq<char>, i: int)
    requires
        0 <= i < s.len(),
    ensures
        scan_token(s, i) matches Some((lex, j)) ==> i < j <= s.len() && i + lexeme_text(
            lex,
        ).len() <= j,
{
    lemma_run_end(s, i + 1, space_pred());
    lemma_run_end(s, i + 1, not_char_pred('"'));
    lemma_run_end(s, i + 1, digit_pred());
    lemma_run_end(s, i + 1, alnum_pred());
    reveal_strlit(".");
    reveal_strlit(",");
    reveal_strlit(";");
    reveal_strlit("+");
    reveal_strlit("-");
    reveal_strlit("*");
    reveal_strlit("/");
    reveal_strlit("=");
    reveal_strlit("==");
    reveal_strlit("!");
    reveal_strlit("!=");
    reveal_strlit(">");
    reveal_strlit(">=");
    reveal_strlit("<");
    reveal_strlit("<=");
    reveal_strlit("(");
    reveal_strlit(")");
    reveal_strlit("{");
    reveal_strlit("}");
}

/// A token as the model sees it: a lexeme and the row and column where its
/// text begins.
pub struct LexedTok {
    pub lex: Lexeme,
    pub row: nat,
    pub col: nat,
}

/// The whole token stream of `s` from character `i` on: the sequence of
/// positioned tokens, or the index of the first unrecognized character.
/// Lexing stops at that character; nothing after it is produced.
pub open spec fn spec_tokens(s: Seq<char>, i: int) -> Result<Seq<LexedTok>, int>
    decreases s.len() - i,
    when 0 <= i <= s.len()
    via spec_tokens_dec
{
    if i >= s.len() {
        Ok(Seq::empty())
    } else {
        match scan_token(s, i) {
            None => Err(i),
            Some((lex, j)) => match spec_tokens(s, j) {
                Ok(rest) => Ok(
                    seq![LexedTok { lex, row: row_of(s.take(i)), col: col_of(s.take(i)) }] + rest,
                ),
                Err(b) => Err(b),
            },
        }
    }
}

#[via_fn]
proof fn spec_tokens_dec(s: Seq<char>, i: int) {
    if 0 <= i < s.len() {
        lemma_scan_token_bounds(s, i);
    }
}

/// Whitespace tokens are tracked for positions but invisible to the grammar.
pub open spec fn is_space_lexeme(l: Lexeme) -> bool {
    l matches Lexeme::Space(_)
}

} // verus!
