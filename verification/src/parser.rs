//! The parser: pulls the token stream apart by recursive descent and builds
//! the AST, verified production by production against the model in
//! `grammar`. Whitespace tokens are filtered out before any production runs;
//! a lexing error surfaces, converted, from whichever production first pulls
//! a token.

pub mod ast;

use vstd::prelude::*;

use crate::error::{NoContentError, SyntaxError as AllError, SyntaxError};
use crate::grammar::{
    binary_node, expect_fail, expect_ok, lemma_args_progress, lemma_block_progress,
    lemma_comprsion_progress, lemma_expression_progress, lemma_factor_progress,
    lemma_for_cond_progress, lemma_for_init_progress, lemma_for_step_progress, lemma_semis_end,
    lemma_statement_progress, lemma_term_progress, lemma_unary_progress, lex_at, pos_at,
    semis_end, sp_args, sp_assign, sp_assign_row, sp_block, sp_block_items, sp_comprsion,
    sp_comprsion_rest, sp_declare, sp_equality, sp_equality_rest, sp_expression,
    sp_expression_statement, sp_factor, sp_factor_rest, sp_for, sp_for_cond, sp_for_init,
    sp_for_step, sp_function_declare, sp_group, sp_if, sp_primary, sp_programing, sp_return,
    sp_right_value, sp_statement, sp_term, sp_term_rest, sp_unary, sp_while, unexpected, PFail,
    Parsed,
};
use crate::parser::ast::{
    AssignStatement, BinaryExpression, BinaryOpeator, Block, DeclareStatement, Exp,
    ExpressionStatement, ForStatement, FunctionDeclareStatement, GroupExpression, IfStatement,
    ParseError, PrimaryExpression, PrimaryRow, ReturnStatement, RightValueExpression, StateMent,
    StmtV, UanryExpression, UnaryOperator, WhileStatement, stmt_view, stmts_view, block_view,
    lemma_stmt_view_span, lemma_stmts_view_push,
};
use crate::lexing::{
    col_of, is_space_lexeme, lemma_scan_token_len, lexeme_text, row_of, scan_token, spec_tokens,
    LexedTok, Lexeme,
};
use crate::scanner::error::ScanError;
use crate::scanner::{Position, Scanner, Token, TokenRow};

verus! {

/// A token leaves the machine headroom: its column plus its text length
/// stays well under `usize::MAX`, so every span and expectation position the
/// parser computes fits.
pub open spec fn tok_ok(t: Token) -> bool {
    t.position.col + lexeme_text(t.token@).len() + 8 <= usize::MAX
}

pub open spec fn toks_ok(toks: Seq<Token>) -> bool {
    forall|k: int| 0 <= k < toks.len() ==> tok_ok(#[trigger] toks[k])
}

/// The parse error that stands for a lexing error met during parsing: same
/// description, same position, parser error code.
pub open spec fn scan_converted(e: SyntaxError, se: ScanError) -> bool {
    &&& e matches SyntaxError::ParseError(pe)
    &&& pe.code == 400
    &&& pe.describe@ == se.describe@
    &&& pe.position == se.position
}

/// Which error value realizes a model failure.
pub open spec fn err_matches(e: SyntaxError, f: PFail) -> bool {
    match f {
        PFail::Parse { position, describe } => {
            &&& e matches SyntaxError::ParseError(pe)
            &&& pe.code == 400
            &&& pe.position == position
            &&& pe.describe@ == describe
        },
        PFail::NoContent => {
            &&& e matches SyntaxError::NoContentError(ne)
            &&& ne.code == 500
            &&& ne.describe@ == "Unexpected end of input"@
        },
    }
}

/// Two parser states that hold the very same lexing outcome: parsing moves
/// only the cursor.
pub open spec fn same_lex(a: Parser, b: Parser) -> bool {
    a.toks() == b.toks() && a.scan_failed() == b.scan_failed() && a.scan_err() == b.scan_err()
}

/// A whole token stream, or the lexing error cut short at.
spec fn prepend(d: Seq<LexedTok>, r: Result<Seq<LexedTok>, int>) -> Result<Seq<LexedTok>, int> {
    match r {
        Ok(ts) => Ok(d + ts),
        Err(b) => Err(b),
    }
}

/// Keeps every token the grammar sees: everything but whitespace.
pub open spec fn grammar_pred() -> spec_fn(LexedTok) -> bool {
    |lt: LexedTok| !is_space_lexeme(lt.lex)
}

/// The parser: the scanned, whitespace-filtered token list (or the lexing
/// error that cut scanning short) and the cursor.
#[derive(Debug)]
pub struct Parser {
    pub token_list: Result<Vec<Token>, ScanError>,
    index: usize,
}

impl Parser {
    /// The tokens the parser walks (empty when lexing failed).
    pub closed spec fn toks(&self) -> Seq<Token> {
        match self.token_list {
            Ok(l) => l@,
            Err(_) => Seq::empty(),
        }
    }

    /// Whether lexing failed before parsing began.
    pub closed spec fn scan_failed(&self) -> bool {
        self.token_list is Err
    }

    /// The lexing error, when lexing failed.
    pub closed spec fn scan_err(&self) -> ScanError {
        self.token_list->Err_0
    }

    /// The cursor: how many tokens have been consumed.
    pub closed spec fn at(&self) -> int {
        self.index as int
    }

    /// Well-formed: the cursor lies within the list, the list is small
    /// enough to index, and every token leaves the headroom `tok_ok` asks.
    pub open spec fn wf(&self) -> bool {
        0 <= self.at() <= self.toks().len() && self.toks().len() + 8 <= usize::MAX && toks_ok(
            self.toks(),
        )
    }

    /// Lexes the whole source and keeps the tokens the grammar sees: every
    /// token but whitespace, in order, with their positions; or the lexing
    /// error, when an unrecognized character cut scanning short.
    pub fn new(s: &str) -> (r: Self)
        requires
            s@.len() + 8 <= usize::MAX,
        ensures
            r.wf(),
            r.at() == 0,
            match spec_tokens(s@, 0) {
                Ok(ts) => !r.scan_failed() && r.toks().map_values(|t: Token| t@) == ts.filter(
                    grammar_pred(),
                ),
                Err(bi) => r.scan_failed() && r.scan_err().code == 300 && r.scan_err().describe@
                    == "unexpected char"@ && r.scan_err().position.row == row_of(s@.take(bi))
                    && r.scan_err().position.col == col_of(s@.take(bi)),
            },
    {
        let mut scanner = Scanner::new(s);
        let mut list: Vec<Token> = Vec::new();
        let ghost mut done: Seq<LexedTok> = Seq::empty();
        proof {
            assert(done + Seq::<LexedTok>::empty() =~= done);
        }
        loop
            invariant
                scanner.wf(),
                scanner.src() == s@,
                !scanner.is_done(),
                scanner.mark() == scanner.at(),
                0 <= scanner.at() <= s@.len(),
                s@.len() + 8 <= usize::MAX,
                spec_tokens(s@, 0) == prepend(done, spec_tokens(s@, scanner.at())),
                list@.map_values(|t: Token| t@) == done.filter(grammar_pred()),
                toks_ok(list@),
                done.len() <= scanner.at(),
                list@.len() <= done.len(),
            decreases s@.len() - scanner.at(),
        {
            let ghost i = scanner.at();
            let ghost old_list = list@;
            let ghost old_done = done;
            proof {
                scanner.lemma_position_meaning();
            }
            match scanner.scan() {
                None => {
                    proof {
                        assert(spec_tokens(s@, scanner.at()) == Ok::<Seq<LexedTok>, int>(
                            Seq::empty(),
                        ));
                        assert(old_done + Seq::<LexedTok>::empty() =~= old_done);
                    }
                    return Parser { token_list: Ok(list), index: 0 };
                },
                Some(Err(e)) => {
                    proof {
                        assert(spec_tokens(s@, i) == Err::<Seq<LexedTok>, int>(i));
                    }
                    return Parser { token_list: Err(e), index: 0 };
                },
                Some(Ok(t)) => {
                    proof {
                        let (lex, j) = scan_token(s@, i)->Some_0;
                        lemma_scan_token_len(s@, i);
                        crate::lexing::lemma_col_le_len(s@.take(i));
                        assert(s@.take(i).len() == i);
                        let lt = LexedTok { lex, row: row_of(s@.take(i)), col: col_of(s@.take(i)) };
                        assert(t@ == lt);
                        assert(spec_tokens(s@, i) == prepend(seq![lt], spec_tokens(s@, j)));
                        done = old_done + seq![lt];
                        match spec_tokens(s@, j) {
                            Ok(rest) => {
                                assert(old_done + (seq![lt] + rest) =~= done + rest);
                            },
                            Err(_) => {},
                        }
                        assert(spec_tokens(s@, 0) == prepend(done, spec_tokens(s@, scanner.at())));
                        // the new token keeps the filter relation
                        reveal(Seq::filter);
                        assert(done.drop_last() =~= old_done);
                        assert(done.last() == lt);
                        assert(tok_ok(t));
                    }
                    match t.token {
                        TokenRow::Space(_) => {
                            proof {
                                assert(done.filter(grammar_pred()) =~= old_done.filter(
                                    grammar_pred(),
                                ));
                            }
                        },
                        _ => {
                            list.push(t);
                            proof {
                                assert(done.filter(grammar_pred()) =~= old_done.filter(
                                    grammar_pred(),
                                ).push(t@));
                                assert(list@.map_values(|x: Token| x@) =~= old_list.map_values(
                                    |x: Token| x@,
                                ).push(t@));
                            }
                        },
                    }
                },
            }
        }
    }
    /// Hands out the next token and moves past it; `None` once the list is
    /// exhausted; the lexing error when lexing failed.
    pub fn advance(&mut self) -> (r: Result<Option<Token>, ScanError>)
        requires
            old(self).wf(),
        ensures
            final(self).wf(),
            same_lex(*old(self), *final(self)),
            old(self).scan_failed() ==> (r matches Err(e) && e == old(self).scan_err()
                && final(self).at() == old(self).at()),
            !old(self).scan_failed() ==> (r matches Ok(opt) && (if old(self).at()
                < old(self).toks().len() {
                opt matches Some(t) && t == old(self).toks()[old(self).at()] && final(self).at()
                    == old(self).at() + 1
            } else {
                opt is None && final(self).at() == old(self).at()
            })),
    {
        match self.is_end() {
            Err(e) => {
                return Err(e);
            },
            Ok(true) => {
                return Ok(None);
            },
            Ok(false) => {},
        }
        let list = match &self.token_list {
            Ok(list) => list,
            Err(e) => {
                return Err(e.clone());
            },
        };
        let token = list[self.index].clone();
        if self.index < list.len() {
            self.index = self.index + 1;
        }
        Ok(Some(token))
    }

    /// Whether the cursor has passed the last token; the lexing error when
    /// lexing failed.
    pub fn is_end(&self) -> (r: Result<bool, ScanError>)
        requires
            self.wf(),
        ensures
            self.scan_failed() ==> (r matches Err(e) && e == self.scan_err()),
            !self.scan_failed() ==> (r matches Ok(b) && b == (self.at() >= self.toks().len())),
    {
        match self.token_list.as_ref() {
            Err(e) => Err(e.clone()),
            Ok(list) => Ok(self.index >= list.len()),
        }
    }

    /// The token `n` places past the cursor, without consuming anything;
    /// the lexing error when lexing failed.
    pub fn peek_n(&self, n: usize) -> (r: Result<Option<&Token>, ScanError>)
        requires
            self.wf(),
            self.at() + n <= usize::MAX,
        ensures
            self.scan_failed() ==> (r matches Err(e) && e == self.scan_err()),
            !self.scan_failed() ==> (r matches Ok(opt) && (if self.at() + n < self.toks().len() {
                opt matches Some(t) && *t == self.toks()[self.at() + n]
            } else {
                opt is None
            })),
    {
        match self.token_list.as_ref() {
            Err(e) => Err(e.clone()),
            Ok(list) => {
                if self.index + n < list.len() {
                    Ok(Some(&list[self.index + n]))
                } else {
                    Ok(None)
                }
            },
        }
    }

    /// Whether the next token's kind is one of `match_list`. A lexing error
    /// met here surfaces as the converted parse error.
    pub fn next_n_match(&self, match_list: Vec<TokenRow>) -> (r: Result<bool, AllError>)
        requires
            self.wf(),
        ensures
            self.scan_failed() ==> (r matches Err(e) && scan_converted(e, self.scan_err())),
            !self.scan_failed() ==> (r matches Ok(b) && b == (self.at() < self.toks().len()
                && lexeme_in(lex_at(self.toks(), self.at()), match_list@))),
    {
        let token = match self.peek_n(0) {
            Err(e) => {
                return Err(SyntaxError::ParseError(crate::parser::ast::ParseError::from_scan(e)));
            },
            Ok(opt) => opt,
        };
        match token {
            Some(v) => {
                let mut x: usize = 0;
                let ghost toks = self.toks();
                while x < match_list.len()
                    invariant
                        0 <= x <= match_list@.len(),
                        !self.scan_failed(),
                        toks == self.toks(),
                        self.at() < toks.len(),
                        v.token@ == lex_at(toks, self.at()),
                        forall|y: int| 0 <= y < x ==> match_list@[y]@ != v.token@,
                    decreases match_list@.len() - x,
                {
                    if v.token == match_list[x] {
                        proof {
                            assert(match_list@[x as int]@ == v.token@);
                        }
                        return Ok(true);
                    }
                    x = x + 1;
                }
                Ok(false)
            },
            None => Ok(false),
        }
    }

    /// Whether the token `n` places past the cursor has a kind in
    /// `match_list`.
    pub fn next_n_is(&self, n: usize, match_list: Vec<TokenRow>) -> (r: Result<bool, AllError>)
        requires
            self.wf(),
            self.at() + n <= usize::MAX,
        ensures
            self.scan_failed() ==> (r matches Err(e) && scan_converted(e, self.scan_err())),
            !self.scan_failed() ==> (r matches Ok(b) && b == (self.at() + n < self.toks().len()
                && lexeme_in(lex_at(self.toks(), self.at() + n), match_list@))),
    {
        let token = match self.peek_n(n) {
            Err(e) => {
                return Err(SyntaxError::ParseError(crate::parser::ast::ParseError::from_scan(e)));
            },
            Ok(opt) => opt,
        };
        match token {
            Some(v) => {
                let mut x: usize = 0;
                let ghost toks = self.toks();
                while x < match_list.len()
                    invariant
                        0 <= x <= match_list@.len(),
                        !self.scan_failed(),
                        toks == self.toks(),
                        self.at() + n < toks.len(),
                        v.token@ == lex_at(toks, self.at() + n),
                        forall|y: int| 0 <= y < x ==> match_list@[y]@ != v.token@,
                    decreases match_list@.len() - x,
                {
                    if v.token == match_list[x] {
                        proof {
                            assert(match_list@[x as int]@ == v.token@);
                        }
                        return Ok(true);
                    }
                    x = x + 1;
                }
                Ok(false)
            },
            None => Ok(false),
        }
    }

    /// Requires the next token to be of kind `expected`; on anything else
    /// (a missing token included) fails with the expectation message, one
    /// column past the anchor `position`.
    pub fn expect(&self, position: Position, expected: TokenRow) -> (r: Result<bool, AllError>)
        requires
            self.wf(),
            position.col < usize::MAX,
        ensures
            self.scan_failed() ==> (r matches Err(e) && scan_converted(e, self.scan_err())),
            !self.scan_failed() ==> (if expect_ok(self.toks(), self.at(), expected@) {
                r matches Ok(b) && b
            } else {
                r matches Err(e) && err_matches(
                    e,
                    expect_fail(position, lexeme_text(expected@)),
                )
            }),
    {
        let position = Position { col: position.col + 1, ..position };
        let next = match self.peek_n(0) {
            Err(e) => {
                return Err(SyntaxError::ParseError(crate::parser::ast::ParseError::from_scan(e)));
            },
            Ok(opt) => opt,
        };
        let matched = match next {
            Some(t) => t.token == expected,
            None => false,
        };
        if matched {
            Ok(true)
        } else {
            let s = expected.to_string();
            let describe = String::from_str("\"").concat(s.as_str()).concat("\" is expected");
            Err(SyntaxError::ParseError(
                crate::parser::ast::ParseError { code: 400, describe, position },
            ))
        }
    }

    /// `expression -> equality`: the entry point of the expression grammar.
    pub fn expresson(&mut self) -> (r: Result<Exp, AllError>)
        requires
            old(self).wf(),
        ensures
            final(self).wf(),
            same_lex(*old(self), *final(self)),
            old(self).scan_failed() ==> (r matches Err(e) && scan_converted(
                e,
                old(self).scan_err(),
            )),
            !old(self).scan_failed() ==> (match sp_expression(old(self).toks(), old(self).at()) {
                Parsed::Found(e0, j) => r matches Ok(e) && e == e0 && final(self).at() == j
                    && e0.span().1.col < usize::MAX,
                Parsed::Failed(f) => r matches Err(e) && err_matches(e, f),
            }),
        decreases old(self).toks().len() - old(self).at(), 13int,
    {
        self.equality()
    }

    /// `equality -> comprsion (("==" | "!=") comprsion)*`, folding matches
    /// into a left-associated chain.
    pub fn equality(&mut self) -> (r: Result<Exp, AllError>)
        requires
            old(self).wf(),
        ensures
            final(self).wf(),
            same_lex(*old(self), *final(self)),
            old(self).scan_failed() ==> (r matches Err(e) && scan_converted(
                e,
                old(self).scan_err(),
            )),
            !old(self).scan_failed() ==> (match sp_equality(old(self).toks(), old(self).at()) {
                Parsed::Found(e0, j) => r matches Ok(e) && e == e0 && final(self).at() == j
                    && e0.span().1.col < usize::MAX,
                Parsed::Failed(f) => r matches Err(e) && err_matches(e, f),
            }),
        decreases old(self).toks().len() - old(self).at(), 12int,
    {
        let ghost toks = old(self).toks();
        let ghost i0 = old(self).at();
        let mut left = match self.comprsion() {
            Ok(e) => e,
            Err(er) => {
                return Err(er);
            },
        };
        proof {
            lemma_comprsion_progress(toks, i0);
        }
        loop
            invariant
                self.wf(),
                !self.scan_failed(),
                toks == self.toks(),
                toks == old(self).toks(),
                i0 == old(self).at(),
                same_lex(*old(self), *self),
                0 <= i0 <= self.at() <= toks.len(),
                left.span().1.col < usize::MAX,
                sp_equality(toks, i0) == sp_equality_rest(toks, left, self.at()),
            ensures
                self.wf(),
                !self.scan_failed(),
                toks == self.toks(),
                same_lex(*old(self), *self),
                left.span().1.col < usize::MAX,
                sp_equality(toks, i0) == Parsed::Found(left, self.at()),
            decreases toks.len() - self.at(),
        {
            let ghost k0 = self.at();
            let ghost left0 = left;
            let rows = rows2(TokenRow::DoubleEq, TokenRow::NotEq);
            let ghost rview = rows@;
            let go = match self.next_n_match(rows) {
                Ok(b) => b,
                Err(_) => {
                    proof {
                        assert(false);
                    }
                    false
                },
            };
            proof {
                if self.at() < toks.len() {
                    lemma_lexeme_in2(
                        lex_at(toks, self.at()),
                        rview,
                        Lexeme::DoubleEq,
                        Lexeme::NotEq,
                    );
                }
            }
            if !go {
                proof {
                    assert(sp_equality_rest(toks, left, self.at()) == Parsed::Found::<Exp>(left, self.at()));
                }
                break ;
            }
            let op_tok = match self.advance() {
                Ok(Some(t)) => t,
                _ => unreached(),
            };
            let op = BinaryOpeator::new(op_tok);
            let right = match self.comprsion() {
                Ok(e) => e,
                Err(er) => {
                    return Err(er);
                },
            };
            proof {
                lemma_comprsion_progress(toks, k0 + 1);
            }
            left = BinaryExpression::new(op, left, right);
            proof {
                assert(left == binary_node(toks, k0, left0, right));
                assert(sp_equality_rest(toks, left0, k0) == sp_equality_rest(
                    toks,
                    left,
                    self.at(),
                ));
            }
        }
        Ok(left)
    }

    /// `comprsion -> term ((">" | ">=" | "<" | "<=") term)*`, folding matches
    /// into a left-associated chain.
    pub fn comprsion(&mut self) -> (r: Result<Exp, AllError>)
        requires
            old(self).wf(),
        ensures
            final(self).wf(),
            same_lex(*old(self), *final(self)),
            old(self).scan_failed() ==> (r matches Err(e) && scan_converted(
                e,
                old(self).scan_err(),
            )),
            !old(self).scan_failed() ==> (match sp_comprsion(old(self).toks(), old(self).at()) {
                Parsed::Found(e0, j) => r matches Ok(e) && e == e0 && final(self).at() == j
                    && e0.span().1.col < usize::MAX,
                Parsed::Failed(f) => r matches Err(e) && err_matches(e, f),
            }),
        decreases old(self).toks().len() - old(self).at(), 10int,
    {
        let ghost toks = old(self).toks();
        let ghost i0 = old(self).at();
        let mut left = match self.term() {
            Ok(e) => e,
            Err(er) => {
                return Err(er);
            },
        };
        proof {
            lemma_term_progress(toks, i0);
        }
        loop
            invariant
                self.wf(),
                !self.scan_failed(),
                toks == self.toks(),
                toks == old(self).toks(),
                i0 == old(self).at(),
                same_lex(*old(self), *self),
                0 <= i0 <= self.at() <= toks.len(),
                left.span().1.col < usize::MAX,
                sp_comprsion(toks, i0) == sp_comprsion_rest(toks, left, self.at()),
            ensures
                self.wf(),
                !self.scan_failed(),
                toks == self.toks(),
                same_lex(*old(self), *self),
                left.span().1.col < usize::MAX,
                sp_comprsion(toks, i0) == Parsed::Found(left, self.at()),
            decreases toks.len() - self.at(),
        {
            let ghost k0 = self.at();
            let ghost left0 = left;
            let rows = rows4(
                TokenRow::Greater,
                TokenRow::GreaterEq,
                TokenRow::Less,
                TokenRow::LessEq,
            );
            let ghost rview = rows@;
            let go = match self.next_n_match(rows) {
                Ok(b) => b,
                Err(_) => {
                    proof {
                        assert(false);
                    }
                    false
                },
            };
            proof {
                if self.at() < toks.len() {
                    lemma_lexeme_in4(
                        lex_at(toks, self.at()),
                        rview,
                        Lexeme::Greater,
                        Lexeme::GreaterEq,
                        Lexeme::Less,
                        Lexeme::LessEq,
                    );
                }
            }
            if !go {
                proof {
                    assert(sp_comprsion_rest(toks, left, self.at()) == Parsed::Found::<Exp>(left, self.at()));
                }
                break ;
            }
            let op_tok = match self.advance() {
                Ok(Some(t)) => t,
                _ => unreached(),
            };
            let op = BinaryOpeator::new(op_tok);
            let right = match self.term() {
                Ok(e) => e,
                Err(er) => {
                    return Err(er);
                },
            };
            proof {
                lemma_term_progress(toks, k0 + 1);
            }
            left = BinaryExpression::new(op, left, right);
            proof {
                assert(left == binary_node(toks, k0, left0, right));
                assert(sp_comprsion_rest(toks, left0, k0) == sp_comprsion_rest(
                    toks,
                    left,
                    self.at(),
                ));
            }
        }
        Ok(left)
    }

    /// `term -> factor (("+" | "-") factor)*`, folding matches into a
    /// left-associated chain.
    pub fn term(&mut self) -> (r: Result<Exp, AllError>)
        requires
            old(self).wf(),
        ensures
            final(self).wf(),
            same_lex(*old(self), *final(self)),
            old(self).scan_failed() ==> (r matches Err(e) && scan_converted(
                e,
                old(self).scan_err(),
            )),
            !old(self).scan_failed() ==> (match sp_term(old(self).toks(), old(self).at()) {
                Parsed::Found(e0, j) => r matches Ok(e) && e == e0 && final(self).at() == j
                    && e0.span().1.col < usize::MAX,
                Parsed::Failed(f) => r matches Err(e) && err_matches(e, f),
            }),
        decreases old(self).toks().len() - old(self).at(), 8int,
    {
        let ghost toks = old(self).toks();
        let ghost i0 = old(self).at();
        let mut left = match self.factor() {
            Ok(e) => e,
            Err(er) => {
                return Err(er);
            },
        };
        proof {
            lemma_factor_progress(toks, i0);
        }
        loop
            invariant
                self.wf(),
                !self.scan_failed(),
                toks == self.toks(),
                toks == old(self).toks(),
                i0 == old(self).at(),
                same_lex(*old(self), *self),
                0 <= i0 <= self.at() <= toks.len(),
                left.span().1.col < usize::MAX,
                sp_term(toks, i0) == sp_term_rest(toks, left, self.at()),
            ensures
                self.wf(),
                !self.scan_failed(),
                toks == self.toks(),
                same_lex(*old(self), *self),
                left.span().1.col < usize::MAX,
                sp_term(toks, i0) == Parsed::Found(left, self.at()),
            decreases toks.len() - self.at(),
        {
            let ghost k0 = self.at();
            let ghost left0 = left;
            let rows = rows2(TokenRow::Plus, TokenRow::Minus);
            let ghost rview = rows@;
            let go = match self.next_n_match(rows) {
                Ok(b) => b,
                Err(_) => {
                    proof {
                        assert(false);
                    }
                    false
                },
            };
            proof {
                if self.at() < toks.len() {
                    lemma_lexeme_in2(lex_at(toks, self.at()), rview, Lexeme::Plus, Lexeme::Minus);
                }
            }
            if !go {
                proof {
                    assert(sp_term_rest(toks, left, self.at()) == Parsed::Found::<Exp>(left, self.at()));
                }
                break ;
            }
            let op_tok = match self.advance() {
                Ok(Some(t)) => t,
                _ => unreached(),
            };
            let op = BinaryOpeator::new(op_tok);
            let right = match self.factor() {
                Ok(e) => e,
                Err(er) => {
                    return Err(er);
                },
            };
            proof {
                lemma_factor_progress(toks, k0 + 1);
            }
            left = BinaryExpression::new(op, left, right);
            proof {
                assert(left == binary_node(toks, k0, left0, right));
                assert(sp_term_rest(toks, left0, k0) == sp_term_rest(toks, left, self.at()));
            }
        }
        Ok(left)
    }

    /// `factor -> unary (("*" | "/") unary)*`, folding matches into a
    /// left-associated chain.
    pub fn factor(&mut self) -> (r: Result<Exp, AllError>)
        requires
            old(self).wf(),
        ensures
            final(self).wf(),
            same_lex(*old(self), *final(self)),
            old(self).scan_failed() ==> (r matches Err(e) && scan_converted(
                e,
                old(self).scan_err(),
            )),
            !old(self).scan_failed() ==> (match sp_factor(old(self).toks(), old(self).at()) {
                Parsed::Found(e0, j) => r matches Ok(e) && e == e0 && final(self).at() == j
                    && e0.span().1.col < usize::MAX,
                Parsed::Failed(f) => r matches Err(e) && err_matches(e, f),
            }),
        decreases old(self).toks().len() - old(self).at(), 6int,
    {
        let ghost toks = old(self).toks();
        let ghost i0 = old(self).at();
        let mut left = match self.unary() {
            Ok(e) => e,
            Err(er) => {
                return Err(er);
            },
        };
        proof {
            lemma_unary_progress(toks, i0);
        }
        loop
            invariant
                self.wf(),
                !self.scan_failed(),
                toks == self.toks(),
                toks == old(self).toks(),
                i0 == old(self).at(),
                same_lex(*old(self), *self),
                0 <= i0 <= self.at() <= toks.len(),
                left.span().1.col < usize::MAX,
                sp_factor(toks, i0) == sp_factor_rest(toks, left, self.at()),
            ensures
                self.wf(),
                !self.scan_failed(),
                toks == self.toks(),
                same_lex(*old(self), *self),
                left.span().1.col < usize::MAX,
                sp_factor(toks, i0) == Parsed::Found(left, self.at()),
            decreases toks.len() - self.at(),
        {
            let ghost k0 = self.at();
            let ghost left0 = left;
            let rows = rows2(TokenRow::Start, TokenRow::Div);
            let ghost rview = rows@;
            let go = match self.next_n_match(rows) {
                Ok(b) => b,
                Err(_) => {
                    proof {
                        assert(false);
                    }
                    false
                },
            };
            proof {
                if self.at() < toks.len() {
                    lemma_lexeme_in2(lex_at(toks, self.at()), rview, Lexeme::Start, Lexeme::Div);
                }
            }
            if !go {
                proof {
                    assert(sp_factor_rest(toks, left, self.at()) == Parsed::Found::<Exp>(left, self.at()));
                }
                break ;
            }
            let op_tok = match self.advance() {
                Ok(Some(t)) => t,
                _ => unreached(),
            };
            let op = BinaryOpeator::new(op_tok);
            let right = match self.unary() {
                Ok(e) => e,
                Err(er) => {
                    return Err(er);
                },
            };
            proof {
                lemma_unary_progress(toks, k0 + 1);
            }
            left = BinaryExpression::new(op, left, right);
            proof {
                assert(left == binary_node(toks, k0, left0, right));
                assert(sp_factor_rest(toks, left0, k0) == sp_factor_rest(toks, left, self.at()));
            }
        }
        Ok(left)
    }

    /// `unary -> ("-" | "!") unary | primary`: prefix operators wrap
    /// right-associatively.
    pub fn unary(&mut self) -> (r: Result<Exp, AllError>)
        requires
            old(self).wf(),
        ensures
            final(self).wf(),
            same_lex(*old(self), *final(self)),
            old(self).scan_failed() ==> (r matches Err(e) && scan_converted(
                e,
                old(self).scan_err(),
            )),
            !old(self).scan_failed() ==> (match sp_unary(old(self).toks(), old(self).at()) {
                Parsed::Found(e0, j) => r matches Ok(e) && e == e0 && final(self).at() == j
                    && e0.span().1.col < usize::MAX,
                Parsed::Failed(f) => r matches Err(e) && err_matches(e, f),
            }),
        decreases old(self).toks().len() - old(self).at(), 4int,
    {
        let ghost toks = old(self).toks();
        let ghost i0 = old(self).at();
        let rows = rows2(TokenRow::Minus, TokenRow::Exclamation);
        let ghost rview = rows@;
        let go = match self.next_n_match(rows) {
            Ok(b) => b,
            Err(er) => {
                return Err(er);
            },
        };
        proof {
            if !self.scan_failed() && self.at() < toks.len() {
                lemma_lexeme_in2(lex_at(toks, self.at()), rview, Lexeme::Minus, Lexeme::Exclamation);
            }
        }
        if go {
            let op_tok = match self.advance() {
                Ok(Some(t)) => t,
                _ => unreached(),
            };
            let op = UnaryOperator::new(op_tok);
            let e = match self.unary() {
                Ok(e) => e,
                Err(er) => {
                    return Err(er);
                },
            };
            Ok(UanryExpression::new(op, e))
        } else {
            self.primary()
        }
    }

    /// `primary -> number | string | true | false | null | group`. The
    /// node's span covers exactly the literal's text.
    pub fn primary(&mut self) -> (r: Result<Exp, AllError>)
        requires
            old(self).wf(),
        ensures
            final(self).wf(),
            same_lex(*old(self), *final(self)),
            old(self).scan_failed() ==> (r matches Err(e) && scan_converted(
                e,
                old(self).scan_err(),
            )),
            !old(self).scan_failed() ==> (match sp_primary(old(self).toks(), old(self).at()) {
                Parsed::Found(e0, j) => r matches Ok(e) && e == e0 && final(self).at() == j
                    && e0.span().1.col < usize::MAX,
                Parsed::Failed(f) => r matches Err(e) && err_matches(e, f),
            }),
        decreases old(self).toks().len() - old(self).at(), 2int,
    {
        let ghost toks = old(self).toks();
        let ghost i0 = old(self).at();
        let next_token = match self.peek_n(0) {
            Err(e) => {
                return Err(SyntaxError::ParseError(crate::parser::ast::ParseError::from_scan(e)));
            },
            Ok(opt) => opt,
        };
        proof {
            reveal_strlit("true");
            reveal_strlit("false");
            reveal_strlit("null");
        }
        let prim = match next_token {
            Some(v) => {
                match &v.token {
                    TokenRow::Digital(n) => PrimaryRow::Number(n.clone()),
                    TokenRow::String(s) => PrimaryRow::String(s.clone()),
                    TokenRow::True => PrimaryRow::True,
                    TokenRow::False => PrimaryRow::False,
                    TokenRow::Null => PrimaryRow::Null,
                    TokenRow::LeftParent => {
                        return self.group();
                    },
                    _ => {
                        return Err(SyntaxError::ParseError(crate::parser::ast::ParseError::from(
                            v.position,
                        )));
                    },
                }
            },
            None => {
                return Err(SyntaxError::NoContentError(NoContentError::new()));
            },
        };
        let token = match self.advance() {
            Ok(Some(t)) => t,
            _ => unreached(),
        };
        Ok(PrimaryExpression::new(prim, token.position))
    }

    /// `group -> "(" expression ")"`; dispatched when `(` stands next. The
    /// node's span is the paren pair.
    #[verifier::rlimit(60)]
    pub fn group(&mut self) -> (r: Result<Exp, AllError>)
        requires
            old(self).wf(),
            !old(self).scan_failed() ==> old(self).at() < old(self).toks().len() && lex_at(
                old(self).toks(),
                old(self).at(),
            ) == Lexeme::LeftParent,
        ensures
            final(self).wf(),
            same_lex(*old(self), *final(self)),
            old(self).scan_failed() ==> (r matches Err(e) && scan_converted(
                e,
                old(self).scan_err(),
            )),
            !old(self).scan_failed() ==> (match sp_group(old(self).toks(), old(self).at()) {
                Parsed::Found(e0, j) => r matches Ok(e) && e == e0 && final(self).at() == j
                    && e0.span().1.col < usize::MAX,
                Parsed::Failed(f) => r matches Err(e) && err_matches(e, f),
            }),
        decreases old(self).toks().len() - old(self).at(), 0int,
    {
        let ghost toks = old(self).toks();
        let ghost i0 = old(self).at();
        let left_parent = match self.advance() {
            Ok(Some(t)) => t,
            Ok(None) => unreached(),
            Err(e) => {
                return Err(SyntaxError::ParseError(crate::parser::ast::ParseError::from_scan(e)));
            },
        };
        let exp = match self.expresson() {
            Ok(e) => e,
            Err(er) => {
                return Err(er);
            },
        };
        proof {
            lemma_expression_progress(toks, i0 + 1);
        }
        let rows = rows1(TokenRow::RightParent);
        let ghost rview = rows@;
        let go = match self.next_n_match(rows) {
            Ok(b) => b,
            Err(_) => {
                proof {
                    assert(false);
                }
                false
            },
        };
        proof {
            if self.at() < toks.len() {
                lemma_lexeme_in1(lex_at(toks, self.at()), rview, Lexeme::RightParent);
            }
        }
        if go {
            let right_parent = match self.advance() {
                Ok(Some(t)) => t,
                _ => unreached(),
            };
            Ok(GroupExpression::new(exp, (left_parent.position, right_parent.position)))
        } else {
            let next_token = match self.peek_n(0) {
                Err(_) => {
                    proof {
                        assert(false);
                    }
                    None
                },
                Ok(opt) => opt,
            };
            match next_token {
                None => Err(SyntaxError::NoContentError(NoContentError::new())),
                Some(res) => Err(SyntaxError::ParseError(crate::parser::ast::ParseError::from(
                    res.position,
                ))),
            }
        }
    }

    /// `right_value -> expression`, required to be present: the payload of a
    /// declaration or assignment.
    pub fn right_value(&mut self) -> (r: Result<RightValueExpression, AllError>)
        requires
            old(self).wf(),
        ensures
            final(self).wf(),
            same_lex(*old(self), *final(self)),
            old(self).scan_failed() ==> (r matches Err(e) && scan_converted(
                e,
                old(self).scan_err(),
            )),
            !old(self).scan_failed() ==> (match sp_right_value(old(self).toks(), old(self).at()) {
                Parsed::Found(e0, j) => r matches Ok(rv) && rv.0 == e0 && final(self).at() == j
                    && e0.span().1.col < usize::MAX,
                Parsed::Failed(f) => r matches Err(e) && err_matches(e, f),
            }),
        decreases old(self).toks().len() - old(self).at(), 14int,
    {
        let has = match self.peek_n(0) {
            Err(e) => {
                return Err(SyntaxError::ParseError(crate::parser::ast::ParseError::from_scan(e)));
            },
            Ok(opt) => opt,
        };
        match has {
            Some(_) => {
                let e = match self.expresson() {
                    Ok(e) => e,
                    Err(er) => {
                        return Err(er);
                    },
                };
                Ok(RightValueExpression::from(e))
            },
            None => Err(SyntaxError::NoContentError(NoContentError::new())),
        }
    }

    /// `expression_statement -> expression`: an expression in statement
    /// position, spanning the expression.
    pub fn expression_statement(&mut self) -> (r: Result<StateMent, AllError>)
        requires
            old(self).wf(),
        ensures
            final(self).wf(),
            same_lex(*old(self), *final(self)),
            old(self).scan_failed() ==> (r matches Err(e) && scan_converted(
                e,
                old(self).scan_err(),
            )),
            !old(self).scan_failed() ==> (match sp_expression_statement(
                old(self).toks(),
                old(self).at(),
            ) {
                Parsed::Found(sv, j) => r matches Ok(st) && stmt_view(st) == sv && final(self).at()
                    == j && sv.span().1.col < usize::MAX,
                Parsed::Failed(f) => r matches Err(e) && err_matches(e, f),
            }),
        decreases old(self).toks().len() - old(self).at(), 16int,
    {
        let exp = match self.expresson() {
            Ok(e) => e,
            Err(er) => {
                return Err(er);
            },
        };
        let statement = ExpressionStatement::new(exp);
        proof {
            reveal_with_fuel(stmt_view, 2);
        }
        Ok(StateMent::Expression(statement))
    }

    /// `name "=" right_value`, shared by declarations and assignments: the
    /// name token, the blindly consumed `=`, then the right-hand side.
    #[verifier::rlimit(100)]
    #[verifier::spinoff_prover]
    fn assign_statement_row(&mut self) -> (r: Result<AssignStatement, AllError>)
        requires
            old(self).wf(),
        ensures
            final(self).wf(),
            same_lex(*old(self), *final(self)),
            old(self).scan_failed() ==> (r matches Err(e) && scan_converted(
                e,
                old(self).scan_err(),
            )),
            !old(self).scan_failed() ==> (match sp_assign_row(old(self).toks(), old(self).at()) {
                Parsed::Found(sv, j) => r matches Ok(a) && stmt_view(StateMent::Assign(a)) == sv
                    && final(self).at() == j && sv.span().1.col < usize::MAX,
                Parsed::Failed(f) => r matches Err(e) && err_matches(e, f),
            }),
        decreases old(self).toks().len() - old(self).at(), 15int,
    {
        let ghost toks = old(self).toks();
        let ghost k = old(self).at();
        let variable_token = match self.advance() {
            Err(e) => {
                return Err(SyntaxError::ParseError(ParseError::from_scan(e)));
            },
            Ok(None) => {
                return Err(SyntaxError::NoContentError(NoContentError::new()));
            },
            Ok(Some(t)) => t,
        };
        let _ = self.advance();
        let right_value = match self.right_value() {
            Ok(rv) => rv,
            Err(er) => {
                return Err(er);
            },
        };
        let value_end = right_value.0.get_position().1;
        proof {
            reveal_with_fuel(stmt_view, 2);
        }
        Ok(AssignStatement::new(
            variable_token.token,
            right_value,
            (variable_token.position, value_end),
        ))
    }

    /// `assign -> name "=" right_value`, dispatched on one extra token of
    /// lookahead.
    pub fn assign_statement(&mut self) -> (r: Result<StateMent, AllError>)
        requires
            old(self).wf(),
        ensures
            final(self).wf(),
            same_lex(*old(self), *final(self)),
            old(self).scan_failed() ==> (r matches Err(e) && scan_converted(
                e,
                old(self).scan_err(),
            )),
            !old(self).scan_failed() ==> (match sp_assign(old(self).toks(), old(self).at()) {
                Parsed::Found(sv, j) => r matches Ok(st) && stmt_view(st) == sv && final(self).at()
                    == j && sv.span().1.col < usize::MAX,
                Parsed::Failed(f) => r matches Err(e) && err_matches(e, f),
            }),
        decreases old(self).toks().len() - old(self).at(), 16int,
    {
        let assign_statement_row = match self.assign_statement_row() {
            Ok(a) => a,
            Err(er) => {
                return Err(er);
            },
        };
        Ok(StateMent::Assign(assign_statement_row))
    }

    /// `declare -> "let" name "=" right_value`; the span starts at the
    /// keyword.
    pub fn declare_statement(&mut self) -> (r: Result<StateMent, AllError>)
        requires
            old(self).wf(),
            !old(self).scan_failed() ==> old(self).at() < old(self).toks().len(),
        ensures
            final(self).wf(),
            same_lex(*old(self), *final(self)),
            old(self).scan_failed() ==> (r matches Err(e) && scan_converted(
                e,
                old(self).scan_err(),
            )),
            !old(self).scan_failed() ==> (match sp_declare(old(self).toks(), old(self).at()) {
                Parsed::Found(sv, j) => r matches Ok(st) && stmt_view(st) == sv && final(self).at()
                    == j && sv.span().1.col < usize::MAX,
                Parsed::Failed(f) => r matches Err(e) && err_matches(e, f),
            }),
        decreases old(self).toks().len() - old(self).at(), 16int,
    {
        let let_ident = match self.advance() {
            Err(e) => {
                return Err(SyntaxError::ParseError(ParseError::from_scan(e)));
            },
            Ok(None) => unreached(),
            Ok(Some(t)) => t,
        };
        let assign_statement = match self.assign_statement_row() {
            Ok(a) => a,
            Err(er) => {
                return Err(er);
            },
        };
        let mut declare_statement: DeclareStatement = DeclareStatement::from(assign_statement);
        declare_statement.start = let_ident.position;
        proof {
            reveal_with_fuel(stmt_view, 2);
        }
        Ok(StateMent::Declare(declare_statement))
    }

    /// `return -> "return" [expression]`: a bare return (next token `;`)
    /// spans six columns past the keyword.
    pub fn return_statement(&mut self) -> (r: Result<StateMent, AllError>)
        requires
            old(self).wf(),
            !old(self).scan_failed() ==> old(self).at() < old(self).toks().len() && lex_at(
                old(self).toks(),
                old(self).at(),
            ) == Lexeme::Return,
        ensures
            final(self).wf(),
            same_lex(*old(self), *final(self)),
            old(self).scan_failed() ==> (r matches Err(e) && scan_converted(
                e,
                old(self).scan_err(),
            )),
            !old(self).scan_failed() ==> (match sp_return(old(self).toks(), old(self).at()) {
                Parsed::Found(sv, j) => r matches Ok(st) && stmt_view(st) == sv && final(self).at()
                    == j && sv.span().1.col < usize::MAX,
                Parsed::Failed(f) => r matches Err(e) && err_matches(e, f),
            }),
        decreases old(self).toks().len() - old(self).at(), 16int,
    {
        let ghost toks = old(self).toks();
        let ghost i0 = old(self).at();
        let return_token = match self.advance() {
            Err(e) => {
                return Err(SyntaxError::ParseError(ParseError::from_scan(e)));
            },
            Ok(None) => unreached(),
            Ok(Some(t)) => t,
        };
        let mut exp: Option<Exp> = None;
        let start = return_token.position;
        proof {
            reveal_strlit("return");
            assert(tok_ok(toks[i0]));
        }
        let mut end = Position::new(start.row, start.col + 6);
        let rows = rows1(TokenRow::Semicolon);
        let ghost rview = rows@;
        let semi_next = match self.next_n_is(0, rows) {
            Ok(b) => b,
            Err(_) => {
                proof {
                    assert(false);
                }
                false
            },
        };
        proof {
            if self.at() < toks.len() {
                lemma_lexeme_in1(lex_at(toks, self.at()), rview, Lexeme::Semicolon);
            }
        }
        if !semi_next {
            let e = match self.expresson() {
                Ok(e) => e,
                Err(er) => {
                    return Err(er);
                },
            };
            end = e.get_position().1;
            exp = Some(e);
        }
        proof {
            reveal_with_fuel(stmt_view, 2);
        }
        Ok(StateMent::Return(ReturnStatement::new(exp, (start, end))))
    }

    /// `while -> "while" "(" expression ")" statement`.
    #[verifier::rlimit(100)]
    #[verifier::spinoff_prover]
    pub fn while_statement(&mut self) -> (r: Result<StateMent, AllError>)
        requires
            old(self).wf(),
            !old(self).scan_failed() ==> old(self).at() < old(self).toks().len() && lex_at(
                old(self).toks(),
                old(self).at(),
            ) == Lexeme::While,
        ensures
            final(self).wf(),
            same_lex(*old(self), *final(self)),
            old(self).scan_failed() ==> (r matches Err(e) && scan_converted(
                e,
                old(self).scan_err(),
            )),
            !old(self).scan_failed() ==> (match sp_while(old(self).toks(), old(self).at()) {
                Parsed::Found(sv, j) => r matches Ok(st) && stmt_view(st) == sv && final(self).at()
                    == j && sv.span().1.col < usize::MAX,
                Parsed::Failed(f) => r matches Err(e) && err_matches(e, f),
            }),
        decreases old(self).toks().len() - old(self).at(), 16int,
    {
        let ghost toks = old(self).toks();
        let ghost i0 = old(self).at();
        let while_token = match self.advance() {
            Err(e) => {
                return Err(SyntaxError::ParseError(ParseError::from_scan(e)));
            },
            Ok(None) => unreached(),
            Ok(Some(t)) => t,
        };
        proof {
            assert(tok_ok(toks[i0]));
        }
        match self.expect(while_token.position, TokenRow::LeftParent) {
            Ok(_) => {},
            Err(er) => {
                return Err(er);
            },
        }
        let _ = self.advance();
        let condition = match self.expresson() {
            Ok(e) => e,
            Err(er) => {
                return Err(er);
            },
        };
        proof {
            lemma_expression_progress(toks, i0 + 2);
        }
        let cond_end = condition.get_position().1;
        match self.expect(cond_end, TokenRow::RightParent) {
            Ok(_) => {},
            Err(er) => {
                return Err(er);
            },
        }
        let _ = self.advance();
        let ghost kb = self.at();
        let body = match self.statement() {
            Ok(st) => st,
            Err(er) => {
                return Err(er);
            },
        };
        proof {
            lemma_statement_progress(toks, kb);
            lemma_stmt_view_span(body);
        }
        let end_position = body.get_position().1;
        let while_statement = WhileStatement::new(
            condition,
            Box::new(body),
            (while_token.position, end_position),
        );
        proof {
            reveal_with_fuel(stmt_view, 2);
        }
        Ok(StateMent::While(while_statement))
    }

    /// `if -> "if" "(" expression ")" statement ["else" statement]`.
    #[verifier::rlimit(100)]
    #[verifier::spinoff_prover]
    pub fn if_statement(&mut self) -> (r: Result<StateMent, AllError>)
        requires
            old(self).wf(),
            !old(self).scan_failed() ==> old(self).at() < old(self).toks().len() && lex_at(
                old(self).toks(),
                old(self).at(),
            ) == Lexeme::If,
        ensures
            final(self).wf(),
            same_lex(*old(self), *final(self)),
            old(self).scan_failed() ==> (r matches Err(e) && scan_converted(
                e,
                old(self).scan_err(),
            )),
            !old(self).scan_failed() ==> (match sp_if(old(self).toks(), old(self).at()) {
                Parsed::Found(sv, j) => r matches Ok(st) && stmt_view(st) == sv && final(self).at()
                    == j && sv.span().1.col < usize::MAX,
                Parsed::Failed(f) => r matches Err(e) && err_matches(e, f),
            }),
        decreases old(self).toks().len() - old(self).at(), 16int,
    {
        let ghost toks = old(self).toks();
        let ghost i0 = old(self).at();
        let if_token = match self.advance() {
            Err(e) => {
                return Err(SyntaxError::ParseError(ParseError::from_scan(e)));
            },
            Ok(None) => unreached(),
            Ok(Some(t)) => t,
        };
        proof {
            assert(tok_ok(toks[i0]));
        }
        match self.expect(if_token.position, TokenRow::LeftParent) {
            Ok(_) => {},
            Err(er) => {
                return Err(er);
            },
        }
        let _ = self.advance();
        let condition = match self.expresson() {
            Ok(e) => e,
            Err(er) => {
                return Err(er);
            },
        };
        proof {
            lemma_expression_progress(toks, i0 + 2);
        }
        match self.expect(if_token.position, TokenRow::RightParent) {
            Ok(_) => {},
            Err(er) => {
                return Err(er);
            },
        }
        let _ = self.advance();
        let ghost kt = self.at();
        let then_branch = match self.statement() {
            Ok(st) => st,
            Err(er) => {
                return Err(er);
            },
        };
        proof {
            lemma_statement_progress(toks, kt);
            lemma_stmt_view_span(then_branch);
        }
        let mut end_position = then_branch.get_position().1;
        let mut else_branch: Option<Box<StateMent>> = None;
        let rows = rows1(TokenRow::Else);
        let ghost rview = rows@;
        let has_else = match self.next_n_match(rows) {
            Ok(b) => b,
            Err(_) => {
                proof {
                    assert(false);
                }
                false
            },
        };
        proof {
            if self.at() < toks.len() {
                lemma_lexeme_in1(lex_at(toks, self.at()), rview, Lexeme::Else);
            }
        }
        if has_else {
            let _ = self.advance();
            let ghost ke = self.at();
            let eb = match self.statement() {
                Ok(st) => st,
                Err(er) => {
                    return Err(er);
                },
            };
            proof {
                lemma_statement_progress(toks, ke);
                lemma_stmt_view_span(eb);
            }
            end_position = eb.get_position().1;
            else_branch = Some(Box::new(eb));
        }
        let if_statement = IfStatement::new(
            condition,
            Box::new(then_branch),
            else_branch,
            (if_token.position, end_position),
        );
        proof {
            reveal_with_fuel(stmt_view, 2);
        }
        Ok(StateMent::If(if_statement))
    }

    /// Consumes a run of stray semicolons: they are legal between
    /// statements and stand for nothing.
    fn skip_semicolons(&mut self)
        requires
            old(self).wf(),
            !old(self).scan_failed(),
        ensures
            final(self).wf(),
            !final(self).scan_failed(),
            same_lex(*old(self), *final(self)),
            final(self).at() == semis_end(old(self).toks(), old(self).at()),
    {
        let ghost toks = old(self).toks();
        let ghost i0 = old(self).at();
        proof {
            lemma_semis_end(toks, i0);
        }
        loop
            invariant
                self.wf(),
                !self.scan_failed(),
                toks == self.toks(),
                same_lex(*old(self), *self),
                0 <= i0 <= self.at() <= toks.len(),
                semis_end(toks, self.at()) == semis_end(toks, i0),
            ensures
                self.wf(),
                !self.scan_failed(),
                toks == self.toks(),
                same_lex(*old(self), *self),
                self.at() == semis_end(toks, i0),
            decreases toks.len() - self.at(),
        {
            let rows = rows1(TokenRow::Semicolon);
            let ghost rview = rows@;
            let go = match self.next_n_is(0, rows) {
                Ok(b) => b,
                Err(_) => {
                    proof {
                        assert(false);
                    }
                    false
                },
            };
            proof {
                if self.at() < toks.len() {
                    lemma_lexeme_in1(lex_at(toks, self.at()), rview, Lexeme::Semicolon);
                }
            }
            if !go {
                proof {
                    assert(semis_end(toks, self.at()) == self.at());
                }
                break ;
            }
            let _ = self.advance();
        }
    }

    /// The statement dispatch: picks the production from one token of
    /// lookahead (an identifier followed by `=` is an assignment; anything
    /// unclaimed is an expression statement).
    #[verifier::rlimit(100)]
    #[verifier::spinoff_prover]
    pub fn statement(&mut self) -> (r: Result<StateMent, AllError>)
        requires
            old(self).wf(),
        ensures
            final(self).wf(),
            same_lex(*old(self), *final(self)),
            old(self).scan_failed() ==> (r matches Err(e) && scan_converted(
                e,
                old(self).scan_err(),
            )),
            !old(self).scan_failed() ==> (match sp_statement(old(self).toks(), old(self).at()) {
                Parsed::Found(sv, j) => r matches Ok(st) && stmt_view(st) == sv && final(self).at()
                    == j && sv.span().1.col < usize::MAX,
                Parsed::Failed(f) => r matches Err(e) && err_matches(e, f),
            }),
        decreases old(self).toks().len() - old(self).at(), 17int,
    {
        let ghost toks = old(self).toks();
        let ghost i0 = old(self).at();
        let pk = match self.peek_n(0) {
            Err(e) => {
                return Err(SyntaxError::ParseError(ParseError::from_scan(e)));
            },
            Ok(o) => o,
        };
        let t = match pk {
            None => {
                return self.expression_statement();
            },
            Some(res) => res.token.clone(),
        };
        proof {
            assert(lex_at(toks, i0) == t@);
        }
        match t {
            TokenRow::Let => {
                proof {
                    assert(sp_statement(toks, i0) == sp_declare(toks, i0));
                }
                self.declare_statement()
            },
            TokenRow::Identifier(_ident) => {
                let rows = rows1(TokenRow::Eq);
                let ghost rview = rows@;
                let is_assign = match self.next_n_is(1, rows) {
                    Ok(b) => b,
                    Err(_) => {
                        proof {
                            assert(false);
                        }
                        false
                    },
                };
                proof {
                    if self.at() + 1 < toks.len() {
                        lemma_lexeme_in1(lex_at(toks, self.at() + 1), rview, Lexeme::Eq);
                    }
                }
                if is_assign {
                    proof {
                        assert(sp_statement(toks, i0) == sp_assign(toks, i0));
                    }
                    self.assign_statement()
                } else {
                    proof {
                        assert(sp_statement(toks, i0) == sp_expression_statement(toks, i0));
                    }
                    self.expression_statement()
                }
            },
            TokenRow::If => {
                proof {
                    assert(sp_statement(toks, i0) == sp_if(toks, i0));
                }
                self.if_statement()
            },
            TokenRow::For => {
                proof {
                    assert(sp_statement(toks, i0) == sp_for(toks, i0));
                }
                self.for_statement()
            },
            TokenRow::While => {
                proof {
                    assert(sp_statement(toks, i0) == sp_while(toks, i0));
                }
                self.while_statement()
            },
            TokenRow::Return => {
                proof {
                    assert(sp_statement(toks, i0) == sp_return(toks, i0));
                }
                self.return_statement()
            },
            TokenRow::LeftBrace => {
                proof {
                    assert(sp_statement(toks, i0) == sp_block(toks, i0));
                }
                self.block()
            },
            TokenRow::Function => {
                proof {
                    assert(sp_statement(toks, i0) == sp_function_declare(toks, i0));
                }
                self.function_declare_statement()
            },
            _ => {
                proof {
                    assert(sp_statement(toks, i0) == sp_expression_statement(toks, i0));
                }
                self.expression_statement()
            },
        }
    }

    /// `block -> "{" statements "}"` as a statement node.
    pub fn block(&mut self) -> (r: Result<StateMent, AllError>)
        requires
            old(self).wf(),
        ensures
            final(self).wf(),
            same_lex(*old(self), *final(self)),
            old(self).scan_failed() ==> (r matches Err(e) && scan_converted(
                e,
                old(self).scan_err(),
            )),
            !old(self).scan_failed() ==> (match sp_block(old(self).toks(), old(self).at()) {
                Parsed::Found(sv, j) => r matches Ok(st) && stmt_view(st) == sv && final(self).at()
                    == j && sv.span().1.col < usize::MAX,
                Parsed::Failed(f) => r matches Err(e) && err_matches(e, f),
            }),
        decreases old(self).toks().len() - old(self).at(), 16int,
    {
        let b = match self.block_row() {
            Ok(b) => b,
            Err(er) => {
                return Err(er);
            },
        };
        proof {
            reveal_with_fuel(stmt_view, 2);
        }
        Ok(StateMent::Block(b))
    }

    /// The body of `block`, as the bare `Block` node: consumes `{`, gathers
    /// statements (enforcing each terminator, absorbing stray semicolons)
    /// until the matching `}`.
    #[verifier::rlimit(100)]
    #[verifier::spinoff_prover]
    fn block_row(&mut self) -> (r: Result<Block, AllError>)
        requires
            old(self).wf(),
        ensures
            final(self).wf(),
            same_lex(*old(self), *final(self)),
            old(self).scan_failed() ==> (r matches Err(e) && scan_converted(
                e,
                old(self).scan_err(),
            )),
            !old(self).scan_failed() ==> (match sp_block(old(self).toks(), old(self).at()) {
                Parsed::Found(sv, j) => r matches Ok(b) && block_view(b) == sv && final(self).at()
                    == j && sv.span().1.col < usize::MAX,
                Parsed::Failed(f) => r matches Err(e) && err_matches(e, f),
            }),
        decreases old(self).toks().len() - old(self).at(), 15int,
    {
        let ghost toks = old(self).toks();
        let ghost i0 = old(self).at();
        let first = match self.peek_n(0) {
            Err(e) => {
                return Err(SyntaxError::ParseError(ParseError::from_scan(e)));
            },
            Ok(o) => o,
        };
        let lb_pos = match first {
            None => {
                return Err(SyntaxError::NoContentError(NoContentError::new()));
            },
            Some(t) => {
                match &t.token {
                    TokenRow::LeftBrace => t.position,
                    _ => {
                        return Err(SyntaxError::ParseError(ParseError::from(t.position)));
                    },
                }
            },
        };
        let _ = self.advance();
        let mut body: Vec<StateMent> = Vec::new();
        proof {
            reveal_with_fuel(stmts_view, 1);
            assert(stmts_view(body@) =~= Seq::<StmtV>::empty());
        }
        loop
            invariant
                self.wf(),
                !self.scan_failed(),
                toks == self.toks(),
                toks == old(self).toks(),
                i0 == old(self).at(),
                same_lex(*old(self), *self),
                0 <= i0 < self.at() <= toks.len(),
                blk_combine(stmts_view(body@), sp_block_items(toks, self.at()))
                    == sp_block_items(toks, i0 + 1),
                lb_pos == pos_at(toks, i0),
                lex_at(toks, i0) == Lexeme::LeftBrace,
            decreases toks.len() - self.at(),
        {
            let ghost k = self.at();
            let ghost body0 = body@;
            let rows = rows1(TokenRow::RightBrace);
            let ghost rview = rows@;
            let rb = match self.next_n_match(rows) {
                Ok(b) => b,
                Err(_) => {
                    proof {
                        assert(false);
                    }
                    false
                },
            };
            proof {
                if self.at() < toks.len() {
                    lemma_lexeme_in1(lex_at(toks, self.at()), rview, Lexeme::RightBrace);
                }
            }
            if rb {
                let rbrace = match self.advance() {
                    Ok(Some(t)) => t,
                    _ => unreached(),
                };
                proof {
                    assert(stmts_view(body0) + Seq::<StmtV>::empty() =~= stmts_view(body0));
                }
                return Ok(Block::new(body, (lb_pos, rbrace.position)));
            }
            self.skip_semicolons();
            proof {
                lemma_semis_end(toks, k);
            }
            let ghost k1 = self.at();
            let rows_b = rows1(TokenRow::RightBrace);
            let ghost rview_b = rows_b@;
            let rb2 = match self.next_n_match(rows_b) {
                Ok(b) => b,
                Err(_) => {
                    proof {
                        assert(false);
                    }
                    false
                },
            };
            proof {
                if self.at() < toks.len() {
                    lemma_lexeme_in1(lex_at(toks, self.at()), rview_b, Lexeme::RightBrace);
                }
            }
            if rb2 {
                let rbrace = match self.advance() {
                    Ok(Some(t)) => t,
                    _ => unreached(),
                };
                proof {
                    assert(stmts_view(body0) + Seq::<StmtV>::empty() =~= stmts_view(body0));
                }
                return Ok(Block::new(body, (lb_pos, rbrace.position)));
            }
            let at_end = match self.is_end() {
                Ok(b) => b,
                Err(_) => {
                    proof {
                        assert(false);
                    }
                    false
                },
            };
            if at_end {
                return Err(SyntaxError::NoContentError(NoContentError::new()));
            }
            let st = match self.statement() {
                Ok(st) => st,
                Err(er) => {
                    return Err(er);
                },
            };
            proof {
                lemma_statement_progress(toks, k1);
                lemma_stmt_view_span(st);
            }
            if st.need_semi() {
                match self.expect(st.get_position().1, TokenRow::Semicolon) {
                    Ok(_) => {},
                    Err(er) => {
                        return Err(er);
                    },
                }
                let _ = self.advance();
            }
            body.push(st);
            proof {
                lemma_stmts_view_push(body0, st);
                match sp_block_items(toks, self.at()) {
                    Parsed::Found((rest, rbp), j) => {
                        assert(stmts_view(body0) + (seq![stmt_view(st)] + rest) =~= stmts_view(
                            body@,
                        ) + rest);
                    },
                    Parsed::Failed(_) => {},
                }
            }
        }
    }

    /// The raw parameter tokens of a function declaration: everything up to
    /// (not including) the closing `)`.
    #[verifier::rlimit(100)]
    #[verifier::spinoff_prover]
    pub fn get_args(&mut self) -> (r: Result<Vec<Token>, AllError>)
        requires
            old(self).wf(),
        ensures
            final(self).wf(),
            same_lex(*old(self), *final(self)),
            old(self).scan_failed() ==> (r matches Err(e) && scan_converted(
                e,
                old(self).scan_err(),
            )),
            !old(self).scan_failed() ==> (match sp_args(old(self).toks(), old(self).at()) {
                Parsed::Found(ts, j) => r matches Ok(v) && v@ == ts && final(self).at() == j,
                Parsed::Failed(f) => r matches Err(e) && err_matches(e, f),
            }),
        decreases old(self).toks().len() - old(self).at(), 15int,
    {
        let ghost toks = old(self).toks();
        let ghost i0 = old(self).at();
        let mut args: Vec<Token> = Vec::new();
        loop
            invariant
                self.wf(),
                toks == self.toks(),
                toks == old(self).toks(),
                i0 == old(self).at(),
                same_lex(*old(self), *self),
                self.scan_failed() == old(self).scan_failed(),
                0 <= i0 <= self.at() <= toks.len(),
                !self.scan_failed() ==> args_combine(args@, sp_args(toks, self.at())) == sp_args(
                    toks,
                    i0,
                ),
                self.scan_failed() ==> self.at() == i0,
            decreases toks.len() - self.at(),
        {
            let ghost k = self.at();
            let ghost args0 = args@;
            let pk = match self.peek_n(0) {
                Err(e) => {
                    return Err(SyntaxError::ParseError(ParseError::from_scan(e)));
                },
                Ok(o) => o,
            };
            match pk {
                None => {
                    return Err(SyntaxError::NoContentError(NoContentError::new()));
                },
                Some(t) => {
                    let is_rp = match &t.token {
                        TokenRow::RightParent => true,
                        _ => false,
                    };
                    if is_rp {
                        proof {
                            assert(args0 + Seq::<Token>::empty() =~= args0);
                        }
                        return Ok(args);
                    }
                },
            }
            let arg = match self.advance() {
                Ok(Some(t)) => t,
                _ => unreached(),
            };
            args.push(arg);
            proof {
                match sp_args(toks, self.at()) {
                    Parsed::Found(rest, j) => {
                        assert(args0 + (seq![toks[k]] + rest) =~= args@ + rest);
                    },
                    Parsed::Failed(_) => {},
                }
            }
        }
    }

    /// `function_declare -> "function" name "(" params ")" block`.
    #[verifier::rlimit(100)]
    #[verifier::spinoff_prover]
    pub fn function_declare_statement(&mut self) -> (r: Result<StateMent, AllError>)
        requires
            old(self).wf(),
            !old(self).scan_failed() ==> old(self).at() < old(self).toks().len() && lex_at(
                old(self).toks(),
                old(self).at(),
            ) == Lexeme::Function,
        ensures
            final(self).wf(),
            same_lex(*old(self), *final(self)),
            old(self).scan_failed() ==> (r matches Err(e) && scan_converted(
                e,
                old(self).scan_err(),
            )),
            !old(self).scan_failed() ==> (match sp_function_declare(
                old(self).toks(),
                old(self).at(),
            ) {
                Parsed::Found(sv, j) => r matches Ok(st) && stmt_view(st) == sv && final(self).at()
                    == j && sv.span().1.col < usize::MAX,
                Parsed::Failed(f) => r matches Err(e) && err_matches(e, f),
            }),
        decreases old(self).toks().len() - old(self).at(), 16int,
    {
        let ghost toks = old(self).toks();
        let ghost i0 = old(self).at();
        let function_token = match self.advance() {
            Err(e) => {
                return Err(SyntaxError::ParseError(ParseError::from_scan(e)));
            },
            Ok(None) => unreached(),
            Ok(Some(t)) => t,
        };
        proof {
            assert(tok_ok(toks[i0]));
        }
        let identity = match self.advance() {
            Err(_) => unreached(),
            Ok(o) => o,
        };
        let (name, name_pos) = match identity {
            Some(t) => {
                match t.token {
                    TokenRow::Identifier(name) => (name, t.position),
                    _ => {
                        return Err(SyntaxError::ParseError(
                            crate::parser::ast::ParseError {
                                code: 400,
                                describe: String::from_str("function name is expected"),
                                position: Position {
                                    row: function_token.position.row,
                                    col: function_token.position.col + 1,
                                },
                            },
                        ));
                    },
                }
            },
            None => {
                return Err(SyntaxError::ParseError(
                    crate::parser::ast::ParseError {
                        code: 400,
                        describe: String::from_str("function name is expected"),
                        position: Position {
                            row: function_token.position.row,
                            col: function_token.position.col + 1,
                        },
                    },
                ));
            },
        };
        proof {
            if i0 + 1 < toks.len() {
                assert(tok_ok(toks[i0 + 1]));
            }
        }
        match self.expect(name_pos, TokenRow::LeftParent) {
            Ok(_) => {},
            Err(er) => {
                return Err(er);
            },
        }
        let _ = self.advance();
        let args = match self.get_args() {
            Ok(v) => v,
            Err(er) => {
                return Err(er);
            },
        };
        proof {
            lemma_args_progress(toks, i0 + 3);
        }
        let _ = self.advance();
        let ghost kb = self.at();
        let body = match self.block_row() {
            Ok(b) => b,
            Err(er) => {
                return Err(er);
            },
        };
        proof {
            lemma_block_progress(toks, kb);
        }
        let end = body.get_position().1;
        let function_declare_statement = FunctionDeclareStatement::new(
            name,
            args,
            body,
            (function_token.position, end),
        );
        proof {
            reveal_with_fuel(stmt_view, 2);
        }
        Ok(StateMent::FunctionDeclare(function_declare_statement))
    }

    /// The optional init clause of a `for`: absent when `;` stands first.
    #[verifier::rlimit(100)]
    #[verifier::spinoff_prover]
    fn for_init_clause(&mut self) -> (r: Result<Option<Box<StateMent>>, AllError>)
        requires
            old(self).wf(),
            !old(self).scan_failed(),
            2 <= old(self).at() <= old(self).toks().len(),
        ensures
            final(self).wf(),
            !final(self).scan_failed(),
            same_lex(*old(self), *final(self)),
            match sp_for_init(old(self).toks(), old(self).at()) {
                Parsed::Found(iv, j) => r matches Ok(o) && final(self).at() == j
                    && opt_stmt_matches(o, iv),
                Parsed::Failed(f) => r matches Err(e) && err_matches(e, f),
            },
        decreases old(self).toks().len() - old(self).at(), 19int,
    {
        let ghost toks = old(self).toks();
        let ghost k0 = old(self).at();
        let rows_i = rows1(TokenRow::Semicolon);
        let ghost rview_i = rows_i@;
        let semi_i = match self.next_n_is(0, rows_i) {
            Ok(b) => b,
            Err(_) => {
                proof {
                    assert(false);
                }
                false
            },
        };
        proof {
            if self.at() < toks.len() {
                lemma_lexeme_in1(lex_at(toks, self.at()), rview_i, Lexeme::Semicolon);
            }
        }
        if !semi_i {
            let st = match self.statement() {
                Ok(st) => st,
                Err(er) => {
                    return Err(er);
                },
            };
            proof {
                lemma_statement_progress(toks, k0);
                lemma_stmt_view_span(st);
            }
            match self.expect(st.get_position().1, TokenRow::Semicolon) {
                Ok(_) => {},
                Err(er) => {
                    return Err(er);
                },
            }
            let _ = self.advance();
            Ok(Some(Box::new(st)))
        } else {
            let _ = self.advance();
            Ok(None)
        }
    }

    /// The optional condition clause of a `for`: absent when `;` stands
    /// first.
    #[verifier::rlimit(100)]
    #[verifier::spinoff_prover]
    fn for_cond_clause(&mut self) -> (r: Result<Option<Exp>, AllError>)
        requires
            old(self).wf(),
            !old(self).scan_failed(),
            2 <= old(self).at() <= old(self).toks().len(),
        ensures
            final(self).wf(),
            !final(self).scan_failed(),
            same_lex(*old(self), *final(self)),
            match sp_for_cond(old(self).toks(), old(self).at()) {
                Parsed::Found(cv, j) => r matches Ok(o) && final(self).at() == j && o == cv,
                Parsed::Failed(f) => r matches Err(e) && err_matches(e, f),
            },
        decreases old(self).toks().len() - old(self).at(), 19int,
    {
        let ghost toks = old(self).toks();
        let ghost k1 = old(self).at();
        let rows_c = rows1(TokenRow::Semicolon);
        let ghost rview_c = rows_c@;
        let semi_c = match self.next_n_is(0, rows_c) {
            Ok(b) => b,
            Err(_) => {
                proof {
                    assert(false);
                }
                false
            },
        };
        proof {
            if self.at() < toks.len() {
                lemma_lexeme_in1(lex_at(toks, self.at()), rview_c, Lexeme::Semicolon);
            }
        }
        if !semi_c {
            let e = match self.expresson() {
                Ok(e) => e,
                Err(er) => {
                    return Err(er);
                },
            };
            proof {
                lemma_expression_progress(toks, k1);
            }
            match self.expect(e.get_position().1, TokenRow::Semicolon) {
                Ok(_) => {},
                Err(er) => {
                    return Err(er);
                },
            }
            let _ = self.advance();
            Ok(Some(e))
        } else {
            let _ = self.advance();
            Ok(None)
        }
    }

    /// The optional step clause of a `for`: absent when `)` stands first.
    #[verifier::rlimit(100)]
    #[verifier::spinoff_prover]
    fn for_step_clause(&mut self) -> (r: Result<Option<Box<StateMent>>, AllError>)
        requires
            old(self).wf(),
            !old(self).scan_failed(),
            2 <= old(self).at() <= old(self).toks().len(),
        ensures
            final(self).wf(),
            !final(self).scan_failed(),
            same_lex(*old(self), *final(self)),
            match sp_for_step(old(self).toks(), old(self).at()) {
                Parsed::Found(sv0, j) => r matches Ok(o) && final(self).at() == j
                    && opt_stmt_matches(o, sv0),
                Parsed::Failed(f) => r matches Err(e) && err_matches(e, f),
            },
        decreases old(self).toks().len() - old(self).at(), 19int,
    {
        let ghost toks = old(self).toks();
        let ghost k2 = old(self).at();
        let rows_s = rows1(TokenRow::RightParent);
        let ghost rview_s = rows_s@;
        let rp_s = match self.next_n_is(0, rows_s) {
            Ok(b) => b,
            Err(_) => {
                proof {
                    assert(false);
                }
                false
            },
        };
        proof {
            if self.at() < toks.len() {
                lemma_lexeme_in1(lex_at(toks, self.at()), rview_s, Lexeme::RightParent);
            }
        }
        if !rp_s {
            let st = match self.statement() {
                Ok(st) => st,
                Err(er) => {
                    return Err(er);
                },
            };
            proof {
                lemma_statement_progress(toks, k2);
                lemma_stmt_view_span(st);
            }
            match self.expect(st.get_position().1, TokenRow::RightParent) {
                Ok(_) => {},
                Err(er) => {
                    return Err(er);
                },
            }
            let _ = self.advance();
            Ok(Some(Box::new(st)))
        } else {
            let _ = self.advance();
            Ok(None)
        }
    }

    /// `for -> "for" "(" [init] ";" [condition] ";" [step] ")" body`, each
    /// clause independently optional.
    #[verifier::rlimit(100)]
    #[verifier::spinoff_prover]
    pub fn for_statement(&mut self) -> (r: Result<StateMent, AllError>)
        requires
            old(self).wf(),
            !old(self).scan_failed() ==> old(self).at() < old(self).toks().len() && lex_at(
                old(self).toks(),
                old(self).at(),
            ) == Lexeme::For,
        ensures
            final(self).wf(),
            same_lex(*old(self), *final(self)),
            old(self).scan_failed() ==> (r matches Err(e) && scan_converted(
                e,
                old(self).scan_err(),
            )),
            !old(self).scan_failed() ==> (match sp_for(old(self).toks(), old(self).at()) {
                Parsed::Found(sv, j) => r matches Ok(st) && stmt_view(st) == sv && final(self).at()
                    == j && sv.span().1.col < usize::MAX,
                Parsed::Failed(f) => r matches Err(e) && err_matches(e, f),
            }),
        decreases old(self).toks().len() - old(self).at(), 16int,
    {
        let ghost toks = old(self).toks();
        let ghost i0 = old(self).at();
        let for_token = match self.advance() {
            Err(e) => {
                return Err(SyntaxError::ParseError(ParseError::from_scan(e)));
            },
            Ok(None) => unreached(),
            Ok(Some(t)) => t,
        };
        let start = for_token.position;
        proof {
            assert(tok_ok(toks[i0]));
        }
        match self.expect(for_token.position, TokenRow::LeftParent) {
            Ok(_) => {},
            Err(er) => {
                return Err(er);
            },
        }
        let _ = self.advance();
        let ghost k0 = self.at();
        let init_statement = match self.for_init_clause() {
            Ok(o) => o,
            Err(er) => {
                return Err(er);
            },
        };
        proof {
            lemma_for_init_progress(toks, k0);
        }
        let ghost k1 = self.at();
        let condition = match self.for_cond_clause() {
            Ok(o) => o,
            Err(er) => {
                return Err(er);
            },
        };
        proof {
            lemma_for_cond_progress(toks, k1);
        }
        let ghost k2 = self.at();
        let next_statement = match self.for_step_clause() {
            Ok(o) => o,
            Err(er) => {
                return Err(er);
            },
        };
        proof {
            lemma_for_step_progress(toks, k2);
        }
        // body
        let ghost k3 = self.at();
        let body = match self.statement() {
            Ok(st) => st,
            Err(er) => {
                return Err(er);
            },
        };
        proof {
            lemma_statement_progress(toks, k3);
            lemma_stmt_view_span(body);
        }
        let end = body.get_position().1;
        let for_statement = ForStatement::new(
            init_statement,
            condition,
            next_statement,
            Box::new(body),
            (start, end),
        );
        proof {
            reveal_with_fuel(stmt_view, 2);
        }
        Ok(StateMent::For(for_statement))
    }

    /// The top-level program: the block loop without braces, run until the
    /// stream is exhausted; yields the ordered top-level statements.
    #[verifier::rlimit(100)]
    #[verifier::spinoff_prover]
    pub fn programing(&mut self) -> (r: Result<Vec<StateMent>, AllError>)
        requires
            old(self).wf(),
        ensures
            final(self).wf(),
            same_lex(*old(self), *final(self)),
            old(self).scan_failed() ==> (r matches Err(e) && scan_converted(
                e,
                old(self).scan_err(),
            )),
            !old(self).scan_failed() ==> (match sp_programing(old(self).toks(), old(self).at()) {
                Parsed::Found(svs, j) => r matches Ok(v) && stmts_view(v@) == svs
                    && final(self).at() == j,
                Parsed::Failed(f) => r matches Err(e) && err_matches(e, f),
            }),
        decreases old(self).toks().len() - old(self).at(), 18int,
    {
        let ghost toks = old(self).toks();
        let ghost i0 = old(self).at();
        let mut programing_list: Vec<StateMent> = Vec::new();
        proof {
            reveal_with_fuel(stmts_view, 1);
            assert(stmts_view(programing_list@) =~= Seq::<StmtV>::empty());
        }
        loop
            invariant
                self.wf(),
                toks == self.toks(),
                toks == old(self).toks(),
                i0 == old(self).at(),
                same_lex(*old(self), *self),
                self.scan_failed() == old(self).scan_failed(),
                0 <= i0 <= self.at() <= toks.len(),
                !self.scan_failed() ==> prog_combine(
                    stmts_view(programing_list@),
                    sp_programing(toks, self.at()),
                ) == sp_programing(toks, i0),
                self.scan_failed() ==> self.at() == i0,
            decreases toks.len() - self.at() + 1,
        {
            let ghost k_entry = self.at();
            let ghost list0 = programing_list@;
            let at_end0 = match self.is_end() {
                Ok(b) => b,
                Err(e) => {
                    return Err(SyntaxError::ParseError(ParseError::from_scan(e)));
                },
            };
            if at_end0 {
                proof {
                    assert(stmts_view(list0) + Seq::<StmtV>::empty() =~= stmts_view(list0));
                }
                return Ok(programing_list);
            }
            self.skip_semicolons();
            proof {
                lemma_semis_end(toks, k_entry);
            }
            let ghost k = self.at();
            let at_end1 = match self.is_end() {
                Ok(b) => b,
                Err(_) => {
                    proof {
                        assert(false);
                    }
                    false
                },
            };
            if at_end1 {
                proof {
                    assert(stmts_view(list0) + Seq::<StmtV>::empty() =~= stmts_view(list0));
                }
                return Ok(programing_list);
            }
            let st = match self.statement() {
                Ok(st) => st,
                Err(er) => {
                    return Err(er);
                },
            };
            proof {
                lemma_statement_progress(toks, k);
                lemma_stmt_view_span(st);
            }
            if st.need_semi() {
                match self.expect(st.get_position().1, TokenRow::Semicolon) {
                    Ok(_) => {},
                    Err(er) => {
                        return Err(er);
                    },
                }
                let _ = self.advance();
            }
            programing_list.push(st);
            proof {
                lemma_stmts_view_push(list0, st);
                match sp_programing(toks, self.at()) {
                    Parsed::Found(rest, j) => {
                        assert(stmts_view(list0) + (seq![stmt_view(st)] + rest) =~= stmts_view(
                            programing_list@,
                        ) + rest);
                    },
                    Parsed::Failed(_) => {},
                }
            }
        }
    }
}

/// Whether an optional boxed statement realizes an optional model
/// statement.
pub open spec fn opt_stmt_matches(o: Option<Box<StateMent>>, iv: Option<StmtV>) -> bool {
    match (o, iv) {
        (Some(b), Some(sv)) => stmt_view(*b) == sv,
        (None, None) => true,
        _ => false,
    }
}

/// What a block's gathered statements so far combine to: the statements
/// already parsed, followed by whatever the rest of the loop yields.
spec fn blk_combine(pre: Seq<StmtV>, r: Parsed<(Seq<StmtV>, Position)>) -> Parsed<
    (Seq<StmtV>, Position),
> {
    match r {
        Parsed::Found((rest, rb), j) => Parsed::Found((pre + rest, rb), j),
        Parsed::Failed(f) => Parsed::Failed(f),
    }
}

/// As `blk_combine`, for the top-level program loop.
spec fn prog_combine(pre: Seq<StmtV>, r: Parsed<Seq<StmtV>>) -> Parsed<Seq<StmtV>> {
    match r {
        Parsed::Found(rest, j) => Parsed::Found(pre + rest, j),
        Parsed::Failed(f) => Parsed::Failed(f),
    }
}

/// As `blk_combine`, for the parameter-token loop.
spec fn args_combine(pre: Seq<Token>, r: Parsed<Seq<Token>>) -> Parsed<Seq<Token>> {
    match r {
        Parsed::Found(rest, j) => Parsed::Found(pre + rest, j),
        Parsed::Failed(f) => Parsed::Failed(f),
    }
}

/// Whether a lexeme is the kind of one of the rows in `list`.
pub open spec fn lexeme_in(l: Lexeme, list: Seq<TokenRow>) -> bool {
    exists|x: int| 0 <= x < list.len() && #[trigger] list[x]@ == l
}

proof fn lemma_lexeme_in1(l: Lexeme, list: Seq<TokenRow>, a: Lexeme)
    requires
        list.len() == 1,
        list[0]@ == a,
    ensures
        lexeme_in(l, list) <==> l == a,
{
    if l == a {
        assert(list[0]@ == l);
    }
}

proof fn lemma_lexeme_in2(l: Lexeme, list: Seq<TokenRow>, a: Lexeme, b: Lexeme)
    requires
        list.len() == 2,
        list[0]@ == a,
        list[1]@ == b,
    ensures
        lexeme_in(l, list) <==> (l == a || l == b),
{
    if l == a {
        assert(list[0]@ == l);
    } else if l == b {
        assert(list[1]@ == l);
    }
}

proof fn lemma_lexeme_in4(l: Lexeme, list: Seq<TokenRow>, a: Lexeme, b: Lexeme, c: Lexeme, d: Lexeme)
    requires
        list.len() == 4,
        list[0]@ == a,
        list[1]@ == b,
        list[2]@ == c,
        list[3]@ == d,
    ensures
        lexeme_in(l, list) <==> (l == a || l == b || l == c || l == d),
{
    if l == a {
        assert(list[0]@ == l);
    } else if l == b {
        assert(list[1]@ == l);
    } else if l == c {
        assert(list[2]@ == l);
    } else if l == d {
        assert(list[3]@ == l);
    }
}

/// A one-element kind list.
fn rows1(a: TokenRow) -> (r: Vec<TokenRow>)
    ensures
        r@.len() == 1,
        r@[0] == a,
{
    let mut v: Vec<TokenRow> = Vec::new();
    v.push(a);
    v
}

/// A two-element kind list.
fn rows2(a: TokenRow, b: TokenRow) -> (r: Vec<TokenRow>)
    ensures
        r@.len() == 2,
        r@[0] == a,
        r@[1] == b,
{
    let mut v: Vec<TokenRow> = Vec::new();
    v.push(a);
    v.push(b);
    v
}

/// A four-element kind list.
fn rows4(a: TokenRow, b: TokenRow, c: TokenRow, d: TokenRow) -> (r: Vec<TokenRow>)
    ensures
        r@.len() == 4,
        r@[0] == a,
        r@[1] == b,
        r@[2] == c,
        r@[3] == d,
{
    let mut v: Vec<TokenRow> = Vec::new();
    v.push(a);
    v.push(b);
    v.push(c);
    v.push(d);
    v
}

} // verus!
