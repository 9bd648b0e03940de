//! Mathematical model of the parser: for every production of the grammar, a
//! spec function that says exactly which AST node it yields from a token
//! stream, how many tokens it consumes, and with which error it fails. The
//! executable `Parser` is verified against this model production by
//! production.
//!
//! The expression grammar is the precedence ladder
//! `equality -> comprsion -> term -> factor -> unary -> primary`, each binary
//! level left-associative; the statement grammar dispatches on one token of
//! lookahead (plus one more to tell an assignment from an expression).

use vstd::prelude::*;

use crate::lexing::Lexeme;
use crate::parser::ast::{
    binary_len, binary_op_of, end_of_text, unary_op_of, BinaryExpression, BinaryOpeator, Exp,
    GroupExpression, PrimaryExpression, PrimaryRow, StmtV, UanryExpression, UnaryOperator,
};
use crate::scanner::{Position, Token, TokenRow};

verus! {

/// How a production fails, at the model level: a parse error with its
/// position and message, or the fixed end-of-input error.
pub enum PFail {
    Parse { position: Position, describe: Seq<char> },
    NoContent,
}

/// The outcome of a production: the parsed value and the index just past the
/// tokens it consumed, or a failure.
pub enum Parsed<T> {
    Found(T, int),
    Failed(PFail),
}

/// The kind of the token at `i`.
pub open spec fn lex_at(toks: Seq<Token>, i: int) -> Lexeme {
    toks[i].token@
}

/// The position of the token at `i`.
pub open spec fn pos_at(toks: Seq<Token>, i: int) -> Position {
    toks[i].position
}

/// One column past `p`: where a missing-token error is reported.
pub open spec fn shift1(p: Position) -> Position {
    Position { row: p.row, col: (p.col + 1) as usize }
}

/// The message of an expectation error: `"text" is expected`.
pub open spec fn expect_describe(t: Seq<char>) -> Seq<char> {
    "\""@ + t + "\" is expected"@
}

/// The failure of `expect` at anchor `p`, one column past it.
pub open spec fn expect_fail(p: Position, t: Seq<char>) -> PFail {
    PFail::Parse { position: shift1(p), describe: expect_describe(t) }
}

/// The plain unexpected-token failure at a token's own position.
pub open spec fn unexpected(toks: Seq<Token>, i: int) -> PFail {
    PFail::Parse { position: pos_at(toks, i), describe: "unexpected token"@ }
}

/// Whether `expect` accepts: there is a next token and it is of the expected
/// kind.
pub open spec fn expect_ok(toks: Seq<Token>, i: int, l: Lexeme) -> bool {
    0 <= i < toks.len() && lex_at(toks, i) == l
}

/// The next index the model continues from after a sub-production reported
/// `j`: at least one token past `cur`, and within the stream. Every
/// production does consume at least one token and reports an index within
/// the stream (`lemma_progress`), so this is the identity on what
/// productions return; it makes the model's termination evident.
pub open spec fn forward(len: int, cur: int, j: int) -> int {
    if cur >= len {
        len
    } else if j <= cur {
        cur + 1
    } else if j > len {
        len
    } else {
        j
    }
}

/// The index after a run of stray semicolons beginning at `i`.
pub open spec fn semis_end(toks: Seq<Token>, i: int) -> int
    decreases toks.len() - i,
    when 0 <= i <= toks.len()
{
    if i < toks.len() && lex_at(toks, i) == Lexeme::Semicolon {
        semis_end(toks, i + 1)
    } else {
        i
    }
}

pub proof fn lemma_semis_end(toks: Seq<Token>, i: int)
    requires
        0 <= i <= toks.len(),
    ensures
        i <= semis_end(toks, i) <= toks.len(),
        forall|k: int| i <= k < semis_end(toks, i) ==> lex_at(toks, k) == Lexeme::Semicolon,
        semis_end(toks, i) < toks.len() ==> lex_at(toks, semis_end(toks, i))
            != Lexeme::Semicolon,
    decreases toks.len() - i,
{
    if i < toks.len() && lex_at(toks, i) == Lexeme::Semicolon {
        lemma_semis_end(toks, i + 1);
    }
}

/// `expression -> equality`.
pub open spec fn sp_expression(toks: Seq<Token>, i: int) -> Parsed<Exp>
    decreases toks.len() - i, 13int,
    when 0 <= i <= toks.len()
{
    sp_equality(toks, i)
}

/// `equality -> comprsion (("==" | "!=") comprsion)*`, folded to the left.
pub open spec fn sp_equality(toks: Seq<Token>, i: int) -> Parsed<Exp>
    decreases toks.len() - i, 12int,
    when 0 <= i <= toks.len()
{
    match sp_comprsion(toks, i) {
        Parsed::Found(e, j) => sp_equality_rest(toks, e, forward(toks.len() as int, i, j)),
        Parsed::Failed(f) => Parsed::Failed(f),
    }
}

pub open spec fn sp_equality_rest(toks: Seq<Token>, left: Exp, k: int) -> Parsed<Exp>
    decreases toks.len() - k, 11int,
    when 0 <= k <= toks.len()
{
    if k < toks.len() && (lex_at(toks, k) == Lexeme::DoubleEq || lex_at(toks, k)
        == Lexeme::NotEq) {
        match sp_comprsion(toks, k + 1) {
            Parsed::Found(right, j) => sp_equality_rest(
                toks,
                binary_node(toks, k, left, right),
                forward(toks.len() as int, k + 1, j),
            ),
            Parsed::Failed(f) => Parsed::Failed(f),
        }
    } else {
        Parsed::Found(left, k)
    }
}

/// The left-folded node for the operator token at `k` and two operands.
pub open spec fn binary_node(toks: Seq<Token>, k: int, left: Exp, right: Exp) -> Exp {
    Exp::Binary(
        BinaryExpression {
            op: BinaryOpeator {
                op: binary_op_of(lex_at(toks, k)),
                start: pos_at(toks, k),
                end: end_of_text(pos_at(toks, k), binary_len(binary_op_of(lex_at(toks, k)))),
            },
            left: Box::new(left),
            right: Box::new(right),
            start: left.span().0,
            end: right.span().1,
        },
    )
}

/// `comprsion -> term ((">" | ">=" | "<" | "<=") term)*`, folded to the left.
pub open spec fn sp_comprsion(toks: Seq<Token>, i: int) -> Parsed<Exp>
    decreases toks.len() - i, 10int,
    when 0 <= i <= toks.len()
{
    match sp_term(toks, i) {
        Parsed::Found(e, j) => sp_comprsion_rest(toks, e, forward(toks.len() as int, i, j)),
        Parsed::Failed(f) => Parsed::Failed(f),
    }
}

pub open spec fn sp_comprsion_rest(toks: Seq<Token>, left: Exp, k: int) -> Parsed<Exp>
    decreases toks.len() - k, 9int,
    when 0 <= k <= toks.len()
{
    if k < toks.len() && (lex_at(toks, k) == Lexeme::Greater || lex_at(toks, k)
        == Lexeme::GreaterEq || lex_at(toks, k) == Lexeme::Less || lex_at(toks, k)
        == Lexeme::LessEq) {
        match sp_term(toks, k + 1) {
            Parsed::Found(right, j) => sp_comprsion_rest(
                toks,
                binary_node(toks, k, left, right),
                forward(toks.len() as int, k + 1, j),
            ),
            Parsed::Failed(f) => Parsed::Failed(f),
        }
    } else {
        Parsed::Found(left, k)
    }
}

/// `term -> factor (("+" | "-") factor)*`, folded to the left.
pub open spec fn sp_term(toks: Seq<Token>, i: int) -> Parsed<Exp>
    decreases toks.len() - i, 8int,
    when 0 <= i <= toks.len()
{
    match sp_factor(toks, i) {
        Parsed::Found(e, j) => sp_term_rest(toks, e, forward(toks.len() as int, i, j)),
        Parsed::Failed(f) => Parsed::Failed(f),
    }
}

pub open spec fn sp_term_rest(toks: Seq<Token>, left: Exp, k: int) -> Parsed<Exp>
    decreases toks.len() - k, 7int,
    when 0 <= k <= toks.len()
{
    if k < toks.len() && (lex_at(toks, k) == Lexeme::Plus || lex_at(toks, k) == Lexeme::Minus) {
        match sp_factor(toks, k + 1) {
            Parsed::Found(right, j) => sp_term_rest(
                toks,
                binary_node(toks, k, left, right),
                forward(toks.len() as int, k + 1, j),
            ),
            Parsed::Failed(f) => Parsed::Failed(f),
        }
    } else {
        Parsed::Found(left, k)
    }
}

/// `factor -> unary (("*" | "/") unary)*`, folded to the left.
pub open spec fn sp_factor(toks: Seq<Token>, i: int) -> Parsed<Exp>
    decreases toks.len() - i, 6int,
    when 0 <= i <= toks.len()
{
    match sp_unary(toks, i) {
        Parsed::Found(e, j) => sp_factor_rest(toks, e, forward(toks.len() as int, i, j)),
        Parsed::Failed(f) => Parsed::Failed(f),
    }
}

pub open spec fn sp_factor_rest(toks: Seq<Token>, left: Exp, k: int) -> Parsed<Exp>
    decreases toks.len() - k, 5int,
    when 0 <= k <= toks.len()
{
    if k < toks.len() && (lex_at(toks, k) == Lexeme::Start || lex_at(toks, k) == Lexeme::Div) {
        match sp_unary(toks, k + 1) {
            Parsed::Found(right, j) => sp_factor_rest(
                toks,
                binary_node(toks, k, left, right),
                forward(toks.len() as int, k + 1, j),
            ),
            Parsed::Failed(f) => Parsed::Failed(f),
        }
    } else {
        Parsed::Found(left, k)
    }
}

/// `unary -> ("-" | "!") unary | primary`, prefix operators right-associative.
pub open spec fn sp_unary(toks: Seq<Token>, i: int) -> Parsed<Exp>
    decreases toks.len() - i, 4int,
    when 0 <= i <= toks.len()
{
    if i < toks.len() && (lex_at(toks, i) == Lexeme::Minus || lex_at(toks, i)
        == Lexeme::Exclamation) {
        match sp_unary(toks, i + 1) {
            Parsed::Found(e, j) => Parsed::Found(
                Exp::Unary(
                    UanryExpression {
                        op: UnaryOperator {
                            op: unary_op_of(lex_at(toks, i)),
                            start: pos_at(toks, i),
                            end: pos_at(toks, i),
                        },
                        exp: Box::new(e),
                        start: pos_at(toks, i),
                        end: e.span().1,
                    },
                ),
                j,
            ),
            Parsed::Failed(f) => Parsed::Failed(f),
        }
    } else {
        sp_primary(toks, i)
    }
}

/// `primary -> number | string | true | false | null | group`. A missing
/// token is the end-of-input failure; a token of any other kind is an
/// unexpected-token failure at its position.
pub open spec fn sp_primary(toks: Seq<Token>, i: int) -> Parsed<Exp>
    decreases toks.len() - i, 2int,
    when 0 <= i <= toks.len()
{
    if i >= toks.len() {
        Parsed::Failed(PFail::NoContent)
    } else {
        match toks[i].token {
            TokenRow::Digital(n) => Parsed::Found(
                Exp::Primary(
                    PrimaryExpression {
                        exp: PrimaryRow::Number(n),
                        start: pos_at(toks, i),
                        end: end_of_text(pos_at(toks, i), n@.len()),
                    },
                ),
                i + 1,
            ),
            TokenRow::String(s) => Parsed::Found(
                Exp::Primary(
                    PrimaryExpression {
                        exp: PrimaryRow::String(s),
                        start: pos_at(toks, i),
                        end: end_of_text(pos_at(toks, i), s@.len()),
                    },
                ),
                i + 1,
            ),
            TokenRow::True => Parsed::Found(
                Exp::Primary(
                    PrimaryExpression {
                        exp: PrimaryRow::True,
                        start: pos_at(toks, i),
                        end: end_of_text(pos_at(toks, i), 4),
                    },
                ),
                i + 1,
            ),
            TokenRow::False => Parsed::Found(
                Exp::Primary(
                    PrimaryExpression {
                        exp: PrimaryRow::False,
                        start: pos_at(toks, i),
                        end: end_of_text(pos_at(toks, i), 5),
                    },
                ),
                i + 1,
            ),
            TokenRow::Null => Parsed::Found(
                Exp::Primary(
                    PrimaryExpression {
                        exp: PrimaryRow::Null,
                        start: pos_at(toks, i),
                        end: end_of_text(pos_at(toks, i), 4),
                    },
                ),
                i + 1,
            ),
            TokenRow::LeftParent => sp_group(toks, i),
            _ => Parsed::Failed(unexpected(toks, i)),
        }
    }
}

/// `group -> "(" expression ")"`; the span is the pair of paren positions. A
/// missing `)` is an error at the offending token, or the end-of-input
/// failure when nothing follows.
pub open spec fn sp_group(toks: Seq<Token>, i: int) -> Parsed<Exp>
    decreases toks.len() - i, 0int,
    when 0 <= i < toks.len()
{
    match sp_expression(toks, i + 1) {
        Parsed::Failed(f) => Parsed::Failed(f),
        Parsed::Found(e, j0) => {
            let j = forward(toks.len() as int, i + 1, j0);
            if j < toks.len() && lex_at(toks, j) == Lexeme::RightParent {
                Parsed::Found(
                    Exp::Group(
                        GroupExpression {
                            exp: Box::new(e),
                            start: pos_at(toks, i),
                            end: pos_at(toks, j),
                        },
                    ),
                    j + 1,
                )
            } else if j >= toks.len() {
                Parsed::Failed(PFail::NoContent)
            } else {
                Parsed::Failed(unexpected(toks, j))
            }
        },
    }
}

/// `right_value -> expression`, required to be present.
pub open spec fn sp_right_value(toks: Seq<Token>, i: int) -> Parsed<Exp>
    decreases toks.len() - i, 14int,
    when 0 <= i <= toks.len()
{
    if i >= toks.len() {
        Parsed::Failed(PFail::NoContent)
    } else {
        sp_expression(toks, i)
    }
}

/// `name "=" right_value`: the name token and the blindly consumed `=`,
/// then the right-hand side. The span runs from the name to the value's end.
pub open spec fn sp_assign_row(toks: Seq<Token>, k: int) -> Parsed<StmtV>
    decreases toks.len() - k, 15int,
    when 0 <= k <= toks.len()
{
    if k >= toks.len() {
        Parsed::Failed(PFail::NoContent)
    } else {
        let name = match toks[k].token {
            TokenRow::Identifier(s) => s@,
            _ => Seq::<char>::empty(),
        };
        let k2 = if k + 2 > toks.len() {
            toks.len() as int
        } else {
            k + 2
        };
        match sp_right_value(toks, k2) {
            Parsed::Found(e, j) => Parsed::Found(
                StmtV::Assign { name, value: e, start: pos_at(toks, k), end: e.span().1 },
                j,
            ),
            Parsed::Failed(f) => Parsed::Failed(f),
        }
    }
}

/// `assign -> name "=" right_value`.
pub open spec fn sp_assign(toks: Seq<Token>, i: int) -> Parsed<StmtV>
    decreases toks.len() - i, 16int,
    when 0 <= i <= toks.len()
{
    sp_assign_row(toks, i)
}

/// `declare -> "let" assign-row`, re-anchored to start at the `let`.
pub open spec fn sp_declare(toks: Seq<Token>, i: int) -> Parsed<StmtV>
    decreases toks.len() - i, 16int,
    when 0 <= i < toks.len()
{
    match sp_assign_row(toks, i + 1) {
        Parsed::Found(sv, j) => match sv {
            StmtV::Assign { name, value, start, end } => Parsed::Found(
                StmtV::Declare { name, value, start: pos_at(toks, i), end },
                j,
            ),
            _ => Parsed::Failed(PFail::NoContent),
        },
        Parsed::Failed(f) => Parsed::Failed(f),
    }
}

/// `return -> "return" [expression]`: a bare return (next token is `;`)
/// spans six columns past the keyword; otherwise the span ends at the
/// expression's end.
pub open spec fn sp_return(toks: Seq<Token>, i: int) -> Parsed<StmtV>
    decreases toks.len() - i, 16int,
    when 0 <= i < toks.len()
{
    let start = pos_at(toks, i);
    if i + 1 < toks.len() && lex_at(toks, i + 1) == Lexeme::Semicolon {
        Parsed::Found(
            StmtV::Return {
                exp: None,
                start,
                end: Position { row: start.row, col: (start.col + 6) as usize },
            },
            i + 1,
        )
    } else {
        match sp_expression(toks, i + 1) {
            Parsed::Found(e, j) => Parsed::Found(
                StmtV::Return { exp: Some(e), start, end: e.span().1 },
                j,
            ),
            Parsed::Failed(f) => Parsed::Failed(f),
        }
    }
}

/// `if -> "if" "(" expression ")" statement ["else" statement]`. Both paren
/// expectations are anchored at the `if` keyword.
pub open spec fn sp_if(toks: Seq<Token>, i: int) -> Parsed<StmtV>
    decreases toks.len() - i, 16int,
    when 0 <= i < toks.len()
{
    let len = toks.len() as int;
    if !expect_ok(toks, i + 1, Lexeme::LeftParent) {
        Parsed::Failed(expect_fail(pos_at(toks, i), "("@))
    } else {
        match sp_expression(toks, i + 2) {
            Parsed::Failed(f) => Parsed::Failed(f),
            Parsed::Found(condition, j0) => {
                let j = forward(len, i + 2, j0);
                if !expect_ok(toks, j, Lexeme::RightParent) {
                    Parsed::Failed(expect_fail(pos_at(toks, i), ")"@))
                } else {
                    match sp_statement(toks, j + 1) {
                        Parsed::Failed(f) => Parsed::Failed(f),
                        Parsed::Found(then_branch, j1) => {
                            let j2 = forward(len, j + 1, j1);
                            if j2 < len && lex_at(toks, j2) == Lexeme::Else {
                                match sp_statement(toks, j2 + 1) {
                                    Parsed::Failed(f) => Parsed::Failed(f),
                                    Parsed::Found(else_branch, j3) => Parsed::Found(
                                        StmtV::If {
                                            condition,
                                            then_branch: Box::new(then_branch),
                                            else_branch: Some(Box::new(else_branch)),
                                            start: pos_at(toks, i),
                                            end: else_branch.span().1,
                                        },
                                        forward(len, j2 + 1, j3),
                                    ),
                                }
                            } else {
                                Parsed::Found(
                                    StmtV::If {
                                        condition,
                                        then_branch: Box::new(then_branch),
                                        else_branch: None,
                                        start: pos_at(toks, i),
                                        end: then_branch.span().1,
                                    },
                                    j2,
                                )
                            }
                        },
                    }
                }
            },
        }
    }
}

/// `while -> "while" "(" expression ")" statement`. The `(` expectation is
/// anchored at the keyword, the `)` expectation at the condition's end.
pub open spec fn sp_while(toks: Seq<Token>, i: int) -> Parsed<StmtV>
    decreases toks.len() - i, 16int,
    when 0 <= i < toks.len()
{
    let len = toks.len() as int;
    if !expect_ok(toks, i + 1, Lexeme::LeftParent) {
        Parsed::Failed(expect_fail(pos_at(toks, i), "("@))
    } else {
        match sp_expression(toks, i + 2) {
            Parsed::Failed(f) => Parsed::Failed(f),
            Parsed::Found(condition, j0) => {
                let j = forward(len, i + 2, j0);
                if !expect_ok(toks, j, Lexeme::RightParent) {
                    Parsed::Failed(expect_fail(condition.span().1, ")"@))
                } else {
                    match sp_statement(toks, j + 1) {
                        Parsed::Failed(f) => Parsed::Failed(f),
                        Parsed::Found(body, j1) => Parsed::Found(
                            StmtV::While {
                                condition,
                                body: Box::new(body),
                                start: pos_at(toks, i),
                                end: body.span().1,
                            },
                            forward(len, j + 1, j1),
                        ),
                    }
                }
            },
        }
    }
}

/// `for -> "for" "(" [init] ";" [condition] ";" [step] ")" body`. An absent
/// clause is detected by its terminator standing first; each present
/// clause's terminator expectation is anchored at the clause's end.
pub open spec fn sp_for(toks: Seq<Token>, i: int) -> Parsed<StmtV>
    decreases toks.len() - i, 16int,
    when 0 <= i < toks.len()
{
    let len = toks.len() as int;
    if !expect_ok(toks, i + 1, Lexeme::LeftParent) {
        Parsed::Failed(expect_fail(pos_at(toks, i), "("@))
    } else {
        let k0 = i + 2;
        match sp_for_init(toks, k0) {
            Parsed::Failed(f) => Parsed::Failed(f),
            Parsed::Found(init, k1raw) => match sp_for_cond(toks, forward(len, i + 1, k1raw)) {
                Parsed::Failed(f) => Parsed::Failed(f),
                Parsed::Found(condition, k2raw) => match sp_for_step(
                    toks,
                    forward(len, forward(len, i + 1, k1raw), k2raw),
                ) {
                    Parsed::Failed(f) => Parsed::Failed(f),
                    Parsed::Found(step, k3raw) => match sp_statement(
                        toks,
                        forward(len, forward(len, forward(len, i + 1, k1raw), k2raw), k3raw),
                    ) {
                        Parsed::Failed(f) => Parsed::Failed(f),
                        Parsed::Found(body, j) => Parsed::Found(
                            StmtV::For {
                                init: match init {
                                    Some(sv) => Some(Box::new(sv)),
                                    None => None,
                                },
                                condition,
                                step: match step {
                                    Some(sv) => Some(Box::new(sv)),
                                    None => None,
                                },
                                body: Box::new(body),
                                start: pos_at(toks, i),
                                end: body.span().1,
                            },
                            forward(
                                len,
                                forward(len, forward(len, forward(len, i + 1, k1raw), k2raw), k3raw),
                                j,
                            ),
                        ),
                    },
                },
            },
        }
    }
}

/// The optional init clause of a `for`, ended by `;`.
pub open spec fn sp_for_init(toks: Seq<Token>, k: int) -> Parsed<Option<StmtV>>
    decreases toks.len() - k, 19int,
    when 2 <= k <= toks.len()
{
    let len = toks.len() as int;
    if k < len && lex_at(toks, k) == Lexeme::Semicolon {
        Parsed::Found(None, k + 1)
    } else {
        match sp_statement(toks, k) {
            Parsed::Failed(f) => Parsed::Failed(f),
            Parsed::Found(sv, j0) => {
                let j = forward(len, k, j0);
                if !expect_ok(toks, j, Lexeme::Semicolon) {
                    Parsed::Failed(expect_fail(sv.span().1, ";"@))
                } else {
                    Parsed::Found(Some(sv), j + 1)
                }
            },
        }
    }
}

/// The optional condition clause of a `for`, ended by `;`.
pub open spec fn sp_for_cond(toks: Seq<Token>, k: int) -> Parsed<Option<Exp>>
    decreases toks.len() - k, 19int,
    when 2 <= k <= toks.len()
{
    let len = toks.len() as int;
    if k < len && lex_at(toks, k) == Lexeme::Semicolon {
        Parsed::Found(None, k + 1)
    } else {
        match sp_expression(toks, k) {
            Parsed::Failed(f) => Parsed::Failed(f),
            Parsed::Found(e, j0) => {
                let j = forward(len, k, j0);
                if !expect_ok(toks, j, Lexeme::Semicolon) {
                    Parsed::Failed(expect_fail(e.span().1, ";"@))
                } else {
                    Parsed::Found(Some(e), j + 1)
                }
            },
        }
    }
}

/// The optional step clause of a `for`, ended by `)`.
pub open spec fn sp_for_step(toks: Seq<Token>, k: int) -> Parsed<Option<StmtV>>
    decreases toks.len() - k, 19int,
    when 2 <= k <= toks.len()
{
    let len = toks.len() as int;
    if k < len && lex_at(toks, k) == Lexeme::RightParent {
        Parsed::Found(None, k + 1)
    } else {
        match sp_statement(toks, k) {
            Parsed::Failed(f) => Parsed::Failed(f),
            Parsed::Found(sv, j0) => {
                let j = forward(len, k, j0);
                if !expect_ok(toks, j, Lexeme::RightParent) {
                    Parsed::Failed(expect_fail(sv.span().1, ")"@))
                } else {
                    Parsed::Found(Some(sv), j + 1)
                }
            },
        }
    }
}

/// `expression_statement -> expression`, spanning the expression.
pub open spec fn sp_expression_statement(toks: Seq<Token>, i: int) -> Parsed<StmtV>
    decreases toks.len() - i, 16int,
    when 0 <= i <= toks.len()
{
    match sp_expression(toks, i) {
        Parsed::Found(e, j) => Parsed::Found(
            StmtV::Expression { exp: e, start: e.span().0, end: e.span().1 },
            j,
        ),
        Parsed::Failed(f) => Parsed::Failed(f),
    }
}

/// `block -> "{" block-items "}"`; the span is the brace pair.
pub open spec fn sp_block(toks: Seq<Token>, i: int) -> Parsed<StmtV>
    decreases toks.len() - i, 16int,
    when 0 <= i <= toks.len()
{
    if i >= toks.len() {
        Parsed::Failed(PFail::NoContent)
    } else if lex_at(toks, i) != Lexeme::LeftBrace {
        Parsed::Failed(unexpected(toks, i))
    } else {
        match sp_block_items(toks, i + 1) {
            Parsed::Failed(f) => Parsed::Failed(f),
            Parsed::Found((items, rb), j) => Parsed::Found(
                StmtV::Block { body: items, start: pos_at(toks, i), end: rb },
                j,
            ),
        }
    }
}

/// The body-gathering loop of a block, from one point of its body on: skip
/// stray semicolons, stop at `}` (yielding its position), else parse one
/// statement and, when its kind requires it, the terminating semicolon.
pub open spec fn sp_block_items(toks: Seq<Token>, k: int) -> Parsed<(Seq<StmtV>, Position)>
    decreases toks.len() - k, 18int,
    when 0 <= k <= toks.len()
{
    let len = toks.len() as int;
    if k < len && lex_at(toks, k) == Lexeme::RightBrace {
        Parsed::Found((Seq::empty(), pos_at(toks, k)), k + 1)
    } else {
        let k1 = semis_end_in(toks, k);
        if k1 < len && lex_at(toks, k1) == Lexeme::RightBrace {
            Parsed::Found((Seq::empty(), pos_at(toks, k1)), k1 + 1)
        } else if k1 >= len {
            Parsed::Failed(PFail::NoContent)
        } else {
            match sp_statement(toks, k1) {
                Parsed::Failed(f) => Parsed::Failed(f),
                Parsed::Found(sv, j0) => {
                    let j = forward(len, k1, j0);
                    if sv.need_semi() {
                        if !expect_ok(toks, j, Lexeme::Semicolon) {
                            Parsed::Failed(expect_fail(sv.span().1, ";"@))
                        } else {
                            match sp_block_items(toks, j + 1) {
                                Parsed::Failed(f) => Parsed::Failed(f),
                                Parsed::Found((rest, rb), j1) => Parsed::Found(
                                    (seq![sv] + rest, rb),
                                    j1,
                                ),
                            }
                        }
                    } else {
                        match sp_block_items(toks, j) {
                            Parsed::Failed(f) => Parsed::Failed(f),
                            Parsed::Found((rest, rb), j1) => Parsed::Found(
                                (seq![sv] + rest, rb),
                                j1,
                            ),
                        }
                    }
                },
            }
        }
    }
}

/// `semis_end`, clamped into the stream for the model's termination.
pub open spec fn semis_end_in(toks: Seq<Token>, k: int) -> int {
    let k1 = semis_end(toks, k);
    if k1 < k {
        k
    } else if k1 > toks.len() {
        toks.len() as int
    } else {
        k1
    }
}

/// The raw parameter tokens of a function declaration: everything up to
/// (not including) the closing `)`; running out of tokens first is the
/// end-of-input failure.
pub open spec fn sp_args(toks: Seq<Token>, k: int) -> Parsed<Seq<Token>>
    decreases toks.len() - k, 15int,
    when 0 <= k <= toks.len()
{
    if k >= toks.len() {
        Parsed::Failed(PFail::NoContent)
    } else if lex_at(toks, k) == Lexeme::RightParent {
        Parsed::Found(Seq::empty(), k)
    } else {
        match sp_args(toks, k + 1) {
            Parsed::Failed(f) => Parsed::Failed(f),
            Parsed::Found(rest, j) => Parsed::Found(seq![toks[k]] + rest, j),
        }
    }
}

/// `function_declare -> "function" name "(" params ")" block`. A missing or
/// non-identifier name is an error one column past the keyword; the `(`
/// expectation is anchored at the name.
pub open spec fn sp_function_declare(toks: Seq<Token>, i: int) -> Parsed<StmtV>
    decreases toks.len() - i, 16int,
    when 0 <= i < toks.len()
{
    let len = toks.len() as int;
    if !(i + 1 < len && toks[i + 1].token is Identifier) {
        Parsed::Failed(
            PFail::Parse {
                position: shift1(pos_at(toks, i)),
                describe: "function name is expected"@,
            },
        )
    } else {
        let name = match toks[i + 1].token {
            TokenRow::Identifier(s) => s@,
            _ => Seq::<char>::empty(),
        };
        if !expect_ok(toks, i + 2, Lexeme::LeftParent) {
            Parsed::Failed(expect_fail(pos_at(toks, i + 1), "("@))
        } else {
            match sp_args(toks, i + 3) {
                Parsed::Failed(f) => Parsed::Failed(f),
                Parsed::Found(args, ka0) => {
                    let kb = forward(len, i + 2, ka0 + 1);
                    match sp_block(toks, kb) {
                        Parsed::Failed(f) => Parsed::Failed(f),
                        Parsed::Found(bv, j) => Parsed::Found(
                            StmtV::FunctionDeclare {
                                name,
                                args,
                                body: Box::new(bv),
                                start: pos_at(toks, i),
                                end: bv.span().1,
                            },
                            forward(len, kb, j),
                        ),
                    }
                },
            }
        }
    }
}

/// The statement dispatch: one token of lookahead picks the production (one
/// more tells an assignment from an expression); everything else is an
/// expression statement.
pub open spec fn sp_statement(toks: Seq<Token>, i: int) -> Parsed<StmtV>
    decreases toks.len() - i, 17int,
    when 0 <= i <= toks.len()
{
    if i >= toks.len() {
        sp_expression_statement(toks, i)
    } else {
        match lex_at(toks, i) {
            Lexeme::Let => sp_declare(toks, i),
            Lexeme::Identifier(_) => if i + 1 < toks.len() && lex_at(toks, i + 1) == Lexeme::Eq {
                sp_assign(toks, i)
            } else {
                sp_expression_statement(toks, i)
            },
            Lexeme::If => sp_if(toks, i),
            Lexeme::For => sp_for(toks, i),
            Lexeme::While => sp_while(toks, i),
            Lexeme::Return => sp_return(toks, i),
            Lexeme::LeftBrace => sp_block(toks, i),
            Lexeme::Function => sp_function_declare(toks, i),
            _ => sp_expression_statement(toks, i),
        }
    }
}

/// The top-level program: the block loop without enclosing braces, run
/// until the stream is exhausted. Stray semicolons between statements are
/// absorbed; each statement whose kind requires it must be followed by one.
pub open spec fn sp_programing(toks: Seq<Token>, i: int) -> Parsed<Seq<StmtV>>
    decreases toks.len() - i, 18int,
    when 0 <= i <= toks.len()
{
    let len = toks.len() as int;
    if i >= len {
        Parsed::Found(Seq::empty(), i)
    } else {
        let k = semis_end_in(toks, i);
        if k >= len {
            Parsed::Found(Seq::empty(), k)
        } else {
            match sp_statement(toks, k) {
                Parsed::Failed(f) => Parsed::Failed(f),
                Parsed::Found(sv, j0) => {
                    let j = forward(len, k, j0);
                    if sv.need_semi() {
                        if !expect_ok(toks, j, Lexeme::Semicolon) {
                            Parsed::Failed(expect_fail(sv.span().1, ";"@))
                        } else {
                            match sp_programing(toks, j + 1) {
                                Parsed::Failed(f) => Parsed::Failed(f),
                                Parsed::Found(rest, j1) => Parsed::Found(seq![sv] + rest, j1),
                            }
                        }
                    } else {
                        match sp_programing(toks, j) {
                            Parsed::Failed(f) => Parsed::Failed(f),
                            Parsed::Found(rest, j1) => Parsed::Found(seq![sv] + rest, j1),
                        }
                    }
                },
            }
        }
    }
}

// Progress: every production that succeeds consumes at least one token
// (the rest-loops and the program loop, at least none) and reports an index
// within the stream. So `forward` is the identity on what productions
// actually report.
pub proof fn lemma_expression_progress(toks: Seq<Token>, i: int)
    requires
        0 <= i <= toks.len(),
    ensures
        sp_expression(toks, i) matches Parsed::Found(e, j) ==> i < j <= toks.len(),
    decreases toks.len() - i, 13int,
{
    lemma_equality_progress(toks, i);
}

pub proof fn lemma_equality_progress(toks: Seq<Token>, i: int)
    requires
        0 <= i <= toks.len(),
    ensures
        sp_equality(toks, i) matches Parsed::Found(e, j) ==> i < j <= toks.len(),
    decreases toks.len() - i, 12int,
{
    lemma_comprsion_progress(toks, i);
    match sp_comprsion(toks, i) {
        Parsed::Found(e, j) => {
            lemma_equality_rest_progress(toks, e, j);
        },
        Parsed::Failed(_) => {},
    }
}

pub proof fn lemma_equality_rest_progress(toks: Seq<Token>, left: Exp, k: int)
    requires
        0 <= k <= toks.len(),
    ensures
        sp_equality_rest(toks, left, k) matches Parsed::Found(e, j) ==> k <= j <= toks.len(),
    decreases toks.len() - k, 11int,
{
    if k < toks.len() && (lex_at(toks, k) == Lexeme::DoubleEq || lex_at(toks, k)
        == Lexeme::NotEq) {
        lemma_comprsion_progress(toks, k + 1);
        match sp_comprsion(toks, k + 1) {
            Parsed::Found(right, j) => {
                lemma_equality_rest_progress(toks, binary_node(toks, k, left, right), j);
            },
            Parsed::Failed(_) => {},
        }
    }
}

pub proof fn lemma_comprsion_progress(toks: Seq<Token>, i: int)
    requires
        0 <= i <= toks.len(),
    ensures
        sp_comprsion(toks, i) matches Parsed::Found(e, j) ==> i < j <= toks.len(),
    decreases toks.len() - i, 10int,
{
    lemma_term_progress(toks, i);
    match sp_term(toks, i) {
        Parsed::Found(e, j) => {
            lemma_comprsion_rest_progress(toks, e, j);
        },
        Parsed::Failed(_) => {},
    }
}

pub proof fn lemma_comprsion_rest_progress(toks: Seq<Token>, left: Exp, k: int)
    requires
        0 <= k <= toks.len(),
    ensures
        sp_comprsion_rest(toks, left, k) matches Parsed::Found(e, j) ==> k <= j <= toks.len(),
    decreases toks.len() - k, 9int,
{
    if k < toks.len() && (lex_at(toks, k) == Lexeme::Greater || lex_at(toks, k)
        == Lexeme::GreaterEq || lex_at(toks, k) == Lexeme::Less || lex_at(toks, k)
        == Lexeme::LessEq) {
        lemma_term_progress(toks, k + 1);
        match sp_term(toks, k + 1) {
            Parsed::Found(right, j) => {
                lemma_comprsion_rest_progress(toks, binary_node(toks, k, left, right), j);
            },
            Parsed::Failed(_) => {},
        }
    }
}

pub proof fn lemma_term_progress(toks: Seq<Token>, i: int)
    requires
        0 <= i <= toks.len(),
    ensures
        sp_term(toks, i) matches Parsed::Found(e, j) ==> i < j <= toks.len(),
    decreases toks.len() - i, 8int,
{
    lemma_factor_progress(toks, i);
    match sp_factor(toks, i) {
        Parsed::Found(e, j) => {
            lemma_term_rest_progress(toks, e, j);
        },
        Parsed::Failed(_) => {},
    }
}

pub proof fn lemma_term_rest_progress(toks: Seq<Token>, left: Exp, k: int)
    requires
        0 <= k <= toks.len(),
    ensures
        sp_term_rest(toks, left, k) matches Parsed::Found(e, j) ==> k <= j <= toks.len(),
    decreases toks.len() - k, 7int,
{
    if k < toks.len() && (lex_at(toks, k) == Lexeme::Plus || lex_at(toks, k) == Lexeme::Minus) {
        lemma_factor_progress(toks, k + 1);
        match sp_factor(toks, k + 1) {
            Parsed::Found(right, j) => {
                lemma_term_rest_progress(toks, binary_node(toks, k, left, right), j);
            },
            Parsed::Failed(_) => {},
        }
    }
}

pub proof fn lemma_factor_progress(toks: Seq<Token>, i: int)
    requires
        0 <= i <= toks.len(),
    ensures
        sp_factor(toks, i) matches Parsed::Found(e, j) ==> i < j <= toks.len(),
    decreases toks.len() - i, 6int,
{
    lemma_unary_progress(toks, i);
    match sp_unary(toks, i) {
        Parsed::Found(e, j) => {
            lemma_factor_rest_progress(toks, e, j);
        },
        Parsed::Failed(_) => {},
    }
}

pub proof fn lemma_factor_rest_progress(toks: Seq<Token>, left: Exp, k: int)
    requires
        0 <= k <= toks.len(),
    ensures
        sp_factor_rest(toks, left, k) matches Parsed::Found(e, j) ==> k <= j <= toks.len(),
    decreases toks.len() - k, 5int,
{
    if k < toks.len() && (lex_at(toks, k) == Lexeme::Start || lex_at(toks, k) == Lexeme::Div) {
        lemma_unary_progress(toks, k + 1);
        match sp_unary(toks, k + 1) {
            Parsed::Found(right, j) => {
                lemma_factor_rest_progress(toks, binary_node(toks, k, left, right), j);
            },
            Parsed::Failed(_) => {},
        }
    }
}

pub proof fn lemma_unary_progress(toks: Seq<Token>, i: int)
    requires
        0 <= i <= toks.len(),
    ensures
        sp_unary(toks, i) matches Parsed::Found(e, j) ==> i < j <= toks.len(),
    decreases toks.len() - i, 4int,
{
    if i < toks.len() && (lex_at(toks, i) == Lexeme::Minus || lex_at(toks, i)
        == Lexeme::Exclamation) {
        lemma_unary_progress(toks, i + 1);
    } else {
        lemma_primary_progress(toks, i);
    }
}

pub proof fn lemma_primary_progress(toks: Seq<Token>, i: int)
    requires
        0 <= i <= toks.len(),
    ensures
        sp_primary(toks, i) matches Parsed::Found(e, j) ==> i < j <= toks.len(),
    decreases toks.len() - i, 2int,
{
    if i < toks.len() && toks[i].token is LeftParent {
        lemma_group_progress(toks, i);
    }
}

pub proof fn lemma_group_progress(toks: Seq<Token>, i: int)
    requires
        0 <= i < toks.len(),
    ensures
        sp_group(toks, i) matches Parsed::Found(e, j) ==> i < j <= toks.len(),
    decreases toks.len() - i, 0int,
{
    lemma_expression_progress(toks, i + 1);
}

pub proof fn lemma_right_value_progress(toks: Seq<Token>, i: int)
    requires
        0 <= i <= toks.len(),
    ensures
        sp_right_value(toks, i) matches Parsed::Found(e, j) ==> i < j <= toks.len(),
    decreases toks.len() - i, 14int,
{
    if i < toks.len() {
        lemma_expression_progress(toks, i);
    }
}

pub proof fn lemma_assign_row_progress(toks: Seq<Token>, k: int)
    requires
        0 <= k <= toks.len(),
    ensures
        sp_assign_row(toks, k) matches Parsed::Found(sv, j) ==> k < j <= toks.len(),
    decreases toks.len() - k, 15int,
{
    if k < toks.len() {
        let k2 = if k + 2 > toks.len() {
            toks.len() as int
        } else {
            k + 2
        };
        lemma_right_value_progress(toks, k2);
    }
}

pub proof fn lemma_args_progress(toks: Seq<Token>, k: int)
    requires
        0 <= k <= toks.len(),
    ensures
        sp_args(toks, k) matches Parsed::Found(args, j) ==> k <= j < toks.len(),
    decreases toks.len() - k, 15int,
{
    if k < toks.len() && lex_at(toks, k) != Lexeme::RightParent {
        lemma_args_progress(toks, k + 1);
    }
}

pub proof fn lemma_statement_progress(toks: Seq<Token>, i: int)
    requires
        0 <= i <= toks.len(),
    ensures
        sp_statement(toks, i) matches Parsed::Found(sv, j) ==> i < j <= toks.len(),
    decreases toks.len() - i, 17int,
{
    let len = toks.len() as int;
    if i >= len {
        lemma_expression_progress(toks, i);
    } else {
        match lex_at(toks, i) {
            Lexeme::Let => {
                lemma_assign_row_progress(toks, i + 1);
            },
            Lexeme::Identifier(_) => {
                if i + 1 < len && lex_at(toks, i + 1) == Lexeme::Eq {
                    lemma_assign_row_progress(toks, i);
                } else {
                    lemma_expression_progress(toks, i);
                }
            },
            Lexeme::If => {
                lemma_if_progress(toks, i);
            },
            Lexeme::For => {
                lemma_for_progress(toks, i);
            },
            Lexeme::While => {
                lemma_while_progress(toks, i);
            },
            Lexeme::Return => {
                lemma_return_progress(toks, i);
            },
            Lexeme::LeftBrace => {
                lemma_block_progress(toks, i);
            },
            Lexeme::Function => {
                lemma_function_declare_progress(toks, i);
            },
            _ => {
                lemma_expression_progress(toks, i);
            },
        }
    }
}

pub proof fn lemma_return_progress(toks: Seq<Token>, i: int)
    requires
        0 <= i < toks.len(),
    ensures
        sp_return(toks, i) matches Parsed::Found(sv, j) ==> i < j <= toks.len(),
    decreases toks.len() - i, 16int,
{
    if !(i + 1 < toks.len() && lex_at(toks, i + 1) == Lexeme::Semicolon) {
        lemma_expression_progress(toks, i + 1);
    }
}

pub proof fn lemma_if_progress(toks: Seq<Token>, i: int)
    requires
        0 <= i < toks.len(),
    ensures
        sp_if(toks, i) matches Parsed::Found(sv, j) ==> i < j <= toks.len(),
    decreases toks.len() - i, 16int,
{
    let len = toks.len() as int;
    if expect_ok(toks, i + 1, Lexeme::LeftParent) {
        lemma_expression_progress(toks, i + 2);
        match sp_expression(toks, i + 2) {
            Parsed::Failed(_) => {},
            Parsed::Found(condition, j0) => {
                let j = forward(len, i + 2, j0);
                if expect_ok(toks, j, Lexeme::RightParent) {
                    lemma_statement_progress(toks, j + 1);
                    match sp_statement(toks, j + 1) {
                        Parsed::Failed(_) => {},
                        Parsed::Found(then_branch, j1) => {
                            let j2 = forward(len, j + 1, j1);
                            if j2 < len && lex_at(toks, j2) == Lexeme::Else {
                                lemma_statement_progress(toks, j2 + 1);
                            }
                        },
                    }
                }
            },
        }
    }
}

pub proof fn lemma_while_progress(toks: Seq<Token>, i: int)
    requires
        0 <= i < toks.len(),
    ensures
        sp_while(toks, i) matches Parsed::Found(sv, j) ==> i < j <= toks.len(),
    decreases toks.len() - i, 16int,
{
    let len = toks.len() as int;
    if expect_ok(toks, i + 1, Lexeme::LeftParent) {
        lemma_expression_progress(toks, i + 2);
        match sp_expression(toks, i + 2) {
            Parsed::Failed(_) => {},
            Parsed::Found(condition, j0) => {
                let j = forward(len, i + 2, j0);
                if expect_ok(toks, j, Lexeme::RightParent) {
                    lemma_statement_progress(toks, j + 1);
                }
            },
        }
    }
}

pub proof fn lemma_for_progress(toks: Seq<Token>, i: int)
    requires
        0 <= i < toks.len(),
    ensures
        sp_for(toks, i) matches Parsed::Found(sv, j) ==> i < j <= toks.len(),
    decreases toks.len() - i, 16int,
{
    let len = toks.len() as int;
    if expect_ok(toks, i + 1, Lexeme::LeftParent) {
        lemma_for_init_progress(toks, i + 2);
        match sp_for_init(toks, i + 2) {
            Parsed::Failed(_) => {},
            Parsed::Found(init, k1raw) => {
                let k1 = forward(len, i + 1, k1raw);
                lemma_for_cond_progress(toks, k1);
                match sp_for_cond(toks, k1) {
                    Parsed::Failed(_) => {},
                    Parsed::Found(condition, k2raw) => {
                        let k2 = forward(len, k1, k2raw);
                        lemma_for_step_progress(toks, k2);
                        match sp_for_step(toks, k2) {
                            Parsed::Failed(_) => {},
                            Parsed::Found(step, k3raw) => {
                                let k3 = forward(len, k2, k3raw);
                                lemma_statement_progress(toks, k3);
                            },
                        }
                    },
                }
            },
        }
    }
}

pub proof fn lemma_for_init_progress(toks: Seq<Token>, k: int)
    requires
        2 <= k <= toks.len(),
    ensures
        sp_for_init(toks, k) matches Parsed::Found(sv, j) ==> k < j <= toks.len(),
    decreases toks.len() - k, 19int,
{
    let len = toks.len() as int;
    if !(k < len && lex_at(toks, k) == Lexeme::Semicolon) {
        lemma_statement_progress(toks, k);
    }
}

pub proof fn lemma_for_cond_progress(toks: Seq<Token>, k: int)
    requires
        2 <= k <= toks.len(),
    ensures
        sp_for_cond(toks, k) matches Parsed::Found(sv, j) ==> k < j <= toks.len(),
    decreases toks.len() - k, 19int,
{
    let len = toks.len() as int;
    if !(k < len && lex_at(toks, k) == Lexeme::Semicolon) {
        lemma_expression_progress(toks, k);
    }
}

pub proof fn lemma_for_step_progress(toks: Seq<Token>, k: int)
    requires
        2 <= k <= toks.len(),
    ensures
        sp_for_step(toks, k) matches Parsed::Found(sv, j) ==> k < j <= toks.len(),
    decreases toks.len() - k, 19int,
{
    let len = toks.len() as int;
    if !(k < len && lex_at(toks, k) == Lexeme::RightParent) {
        lemma_statement_progress(toks, k);
    }
}

pub proof fn lemma_block_progress(toks: Seq<Token>, i: int)
    requires
        0 <= i <= toks.len(),
    ensures
        sp_block(toks, i) matches Parsed::Found(sv, j) ==> i < j <= toks.len(),
    decreases toks.len() - i, 16int,
{
    if i < toks.len() && lex_at(toks, i) == Lexeme::LeftBrace {
        lemma_block_items_progress(toks, i + 1);
    }
}

pub proof fn lemma_block_items_progress(toks: Seq<Token>, k: int)
    requires
        0 <= k <= toks.len(),
    ensures
        sp_block_items(toks, k) matches Parsed::Found(p, j) ==> k < j <= toks.len(),
    decreases toks.len() - k, 18int,
{
    let len = toks.len() as int;
    if !(k < len && lex_at(toks, k) == Lexeme::RightBrace) {
        let k1 = semis_end_in(toks, k);
        if k1 < len && lex_at(toks, k1) == Lexeme::RightBrace {
        } else if k1 >= len {
        } else {
            lemma_statement_progress(toks, k1);
            match sp_statement(toks, k1) {
                Parsed::Failed(_) => {},
                Parsed::Found(sv, j0) => {
                    let j = forward(len, k1, j0);
                    if sv.need_semi() {
                        if expect_ok(toks, j, Lexeme::Semicolon) {
                            lemma_block_items_progress(toks, j + 1);
                        }
                    } else {
                        lemma_block_items_progress(toks, j);
                    }
                },
            }
        }
    }
}

pub proof fn lemma_function_declare_progress(toks: Seq<Token>, i: int)
    requires
        0 <= i < toks.len(),
    ensures
        sp_function_declare(toks, i) matches Parsed::Found(sv, j) ==> i < j <= toks.len(),
    decreases toks.len() - i, 16int,
{
    let len = toks.len() as int;
    if i + 1 < len && toks[i + 1].token is Identifier && expect_ok(
        toks,
        i + 2,
        Lexeme::LeftParent,
    ) {
        lemma_args_progress(toks, i + 3);
        match sp_args(toks, i + 3) {
            Parsed::Failed(_) => {},
            Parsed::Found(args, ka0) => {
                let kb = forward(len, i + 2, ka0 + 1);
                lemma_block_progress(toks, kb);
            },
        }
    }
}

pub proof fn lemma_programing_progress(toks: Seq<Token>, i: int)
    requires
        0 <= i <= toks.len(),
    ensures
        sp_programing(toks, i) matches Parsed::Found(p, j) ==> i <= j <= toks.len(),
    decreases toks.len() - i, 18int,
{
    let len = toks.len() as int;
    if i < len {
        let k = semis_end_in(toks, i);
        if k < len {
            lemma_statement_progress(toks, k);
            match sp_statement(toks, k) {
                Parsed::Failed(_) => {},
                Parsed::Found(sv, j0) => {
                    let j = forward(len, k, j0);
                    if sv.need_semi() {
                        if expect_ok(toks, j, Lexeme::Semicolon) {
                            lemma_programing_progress(toks, j + 1);
                        }
                    } else {
                        lemma_programing_progress(toks, j);
                    }
                },
            }
        }
    }
}

} // verus!
