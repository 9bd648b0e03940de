//! Guarantees of the front end that reach across functions, stated once and
//! proved from the models in `lexing` and `grammar`.

use vstd::prelude::*;

use crate::grammar::binary_node;
use crate::lexing::{
    col_of, lexeme_text, row_of, run_end, scan_token, spec_tokens, LexedTok, Lexeme,
};
use crate::parser::ast::Exp;
use crate::scanner::Token;

verus! {

/// The lexemes whose text is fixed: punctuation, the one- and two-character
/// operators, and the reserved words. Literal-bearing lexemes are excluded.
pub open spec fn fixed_lexeme(l: Lexeme) -> bool {
    match l {
        Lexeme::Digital(_) => false,
        Lexeme::StringLit(_) => false,
        Lexeme::Space(_) => false,
        Lexeme::Identifier(_) => false,
        _ => true,
    }
}

/// Lexing the text of any fixed token yields exactly that one token, whose
/// start position is the origin, and consumes exactly the token's text (so
/// a two-character operator consumes both its characters).
pub proof fn lemma_single_token(l: Lexeme)
    requires
        fixed_lexeme(l),
    ensures
        spec_tokens(lexeme_text(l), 0) == Ok::<Seq<LexedTok>, int>(
            seq![LexedTok { lex: l, row: 0, col: 0 }],
        ),
{
    let s = lexeme_text(l);
    reveal_strlit(".");
    reveal_strlit(",");
    reveal_strlit(";");
    reveal_strlit("+");
    reveal_strlit("-");
    reveal_strlit("*");
    reveal_strlit("/");
    reveal_strlit("=");
    reveal_strlit("==");
    reveal_strlit("!");
    reveal_strlit("!=");
    reveal_strlit(">");
    reveal_strlit(">=");
    reveal_strlit("<");
    reveal_strlit("<=");
    reveal_strlit("(");
    reveal_strlit(")");
    reveal_strlit("{");
    reveal_strlit("}");
    reveal_strlit("let");
    reveal_strlit("function");
    reveal_strlit("return");
    reveal_strlit("if");
    reveal_strlit("else");
    reveal_strlit("for");
    reveal_strlit("while");
    reveal_strlit("continue");
    reveal_strlit("break");
    reveal_strlit("true");
    reveal_strlit("false");
    reveal_strlit("null");
    reveal_strlit("this");
    reveal_with_fuel(run_end, 10);
    reveal_with_fuel(spec_tokens, 3);
    assert(s.take(0) =~= Seq::<char>::empty());
    match l {
        Lexeme::Let => {
            assert(s.subrange(0, 3) =~= s);
            assert(scan_token(s, 0) == Some((l, 3int)));
        },
        Lexeme::Function => {
            assert(s.subrange(0, 8) =~= s);
            assert(scan_token(s, 0) == Some((l, 8int)));
        },
        Lexeme::Return => {
            assert(s.subrange(0, 6) =~= s);
            assert(scan_token(s, 0) == Some((l, 6int)));
        },
        Lexeme::If => {
            assert(s.subrange(0, 2) =~= s);
            assert(scan_token(s, 0) == Some((l, 2int)));
        },
        Lexeme::Else => {
            assert(s.subrange(0, 4) =~= s);
            assert(scan_token(s, 0) == Some((l, 4int)));
        },
        Lexeme::For => {
            assert(s.subrange(0, 3) =~= s);
            assert(scan_token(s, 0) == Some((l, 3int)));
        },
        Lexeme::While => {
            assert(s.subrange(0, 5) =~= s);
            assert(scan_token(s, 0) == Some((l, 5int)));
        },
        Lexeme::Continue => {
            assert(s.subrange(0, 8) =~= s);
            assert(scan_token(s, 0) == Some((l, 8int)));
        },
        Lexeme::Break => {
            assert(s.subrange(0, 5) =~= s);
            assert(scan_token(s, 0) == Some((l, 5int)));
        },
        Lexeme::True => {
            assert(s.subrange(0, 4) =~= s);
            assert(scan_token(s, 0) == Some((l, 4int)));
        },
        Lexeme::False => {
            assert(s.subrange(0, 5) =~= s);
            assert(scan_token(s, 0) == Some((l, 5int)));
        },
        Lexeme::Null => {
            assert(s.subrange(0, 4) =~= s);
            assert(scan_token(s, 0) == Some((l, 4int)));
        },
        Lexeme::This => {
            assert(s.subrange(0, 4) =~= s);
            assert(scan_token(s, 0) == Some((l, 4int)));
        },
        _ => {
            assert(scan_token(s, 0) matches Some((l2, j)) && l2 == l && j == s.len());
        },
    }
    assert(spec_tokens(s, 0) == Ok::<Seq<LexedTok>, int>(
        seq![LexedTok { lex: l, row: row_of(s.take(0)), col: col_of(s.take(0)) }],
    ));
}

/// A binary node folded by the parser spans from its left operand's start
/// to its right operand's end, whichever of the ten operators joins them.
pub proof fn lemma_binary_span(toks: Seq<Token>, k: int, left: Exp, right: Exp)
    requires
        0 <= k < toks.len(),
    ensures
        binary_node(toks, k, left, right).span() == (left.span().0, right.span().1),
{
}

/// Position fidelity across a newline: when the last newline of the
/// consumed prefix stands at index `j`, the column is exactly the number of
/// characters consumed since it, and the row is one more than the rows
/// before it.
pub proof fn lemma_position_fidelity(s: Seq<char>, j: int)
    requires
        0 <= j < s.len(),
        s[j] == '\n',
        forall|k: int| j < k < s.len() ==> s[k] != '\n',
    ensures
        col_of(s) == s.len() - j - 1,
        row_of(s) == row_of(s.take(j)) + 1,
    decreases s.len(),
{
    if j == s.len() - 1 {
        assert(s.drop_last() =~= s.take(j));
    } else {
        lemma_position_fidelity(s.drop_last(), j);
        assert(s.drop_last().take(j) =~= s.take(j));
        assert(s.last() != '\n');
    }
}

} // verus!
