use scriptfront::error::SyntaxError;
use scriptfront::parser::ast::{BinaryOpeatorRow, Exp, PrimaryRow, UnaryOperatorRow};
use scriptfront::parser::Parser;
use scriptfront::scanner::Position;

fn parse_expression(source: &str) -> Exp {
    let mut parser = Parser::new(source);
    match parser.expresson() {
        Ok(e) => e,
        Err(e) => panic!("expected an expression for {:?}, got {:?}", source, e),
    }
}

fn number_text(e: &Exp) -> &str {
    match e {
        Exp::Primary(p) => match &p.exp {
            PrimaryRow::Number(n) => n.as_str(),
            other => panic!("expected a number literal, got {:?}", other),
        },
        other => panic!("expected a primary node, got {:?}", other),
    }
}

#[test]
fn every_binary_operator_spans_from_left_start_to_right_end() {
    let cases: Vec<(&str, BinaryOpeatorRow)> = vec![
        ("1==2", BinaryOpeatorRow::Eq),
        ("1!=2", BinaryOpeatorRow::NotEq),
        ("1>2", BinaryOpeatorRow::Greater),
        ("1>=2", BinaryOpeatorRow::GreaterEq),
        ("1<2", BinaryOpeatorRow::Less),
        ("1<=2", BinaryOpeatorRow::LessEq),
        ("1+2", BinaryOpeatorRow::Plus),
        ("1-2", BinaryOpeatorRow::Minus),
        ("1*2", BinaryOpeatorRow::Multip),
        ("1/2", BinaryOpeatorRow::Div),
    ];
    for (source, op) in cases {
        let e = parse_expression(source);
        match &e {
            Exp::Binary(b) => {
                assert!(
                    matches!(&b.op.op, x if std::mem::discriminant(x) == std::mem::discriminant(&op)),
                    "wrong operator for {}",
                    source
                );
                let (left_start, _) = b.left.get_position();
                let (_, right_end) = b.right.get_position();
                assert_eq!(b.start, left_start, "span start for {}", source);
                assert_eq!(b.end, right_end, "span end for {}", source);
                assert_eq!(e.get_position(), (left_start, right_end));
            },
            other => panic!("expected a binary node for {}, got {:?}", source, other),
        }
    }
}

#[test]
fn parenthesized_expression_keeps_a_group_node() {
    let e = parse_expression("(1-2)");
    match &e {
        Exp::Group(g) => {
            assert_eq!(g.start, Position::new(0, 0));
            assert_eq!(g.end, Position::new(0, 4));
            match &*g.exp {
                Exp::Binary(b) => {
                    assert!(matches!(b.op.op, BinaryOpeatorRow::Minus));
                    assert_eq!(number_text(&b.left), "1");
                    assert_eq!(number_text(&b.right), "2");
                },
                other => panic!("expected a difference inside the group, got {:?}", other),
            }
        },
        other => panic!("expected a group node, got {:?}", other),
    }
    let bare = parse_expression("1-2");
    assert!(matches!(bare, Exp::Binary(_)));
}

#[test]
fn multiplication_binds_tighter_than_addition() {
    let e = parse_expression("1+2*3");
    match &e {
        Exp::Binary(add) => {
            assert!(matches!(add.op.op, BinaryOpeatorRow::Plus));
            assert_eq!(number_text(&add.left), "1");
            match &*add.right {
                Exp::Binary(mul) => {
                    assert!(matches!(mul.op.op, BinaryOpeatorRow::Multip));
                    assert_eq!(number_text(&mul.left), "2");
                    assert_eq!(number_text(&mul.right), "3");
                },
                other => panic!("expected the product as right child, got {:?}", other),
            }
        },
        other => panic!("expected an addition at the top, got {:?}", other),
    }
}

#[test]
fn subtraction_associates_to_the_left() {
    let e = parse_expression("1-2-3");
    match &e {
        Exp::Binary(outer) => {
            assert!(matches!(outer.op.op, BinaryOpeatorRow::Minus));
            assert_eq!(number_text(&outer.right), "3");
            match &*outer.left {
                Exp::Binary(inner) => {
                    assert!(matches!(inner.op.op, BinaryOpeatorRow::Minus));
                    assert_eq!(number_text(&inner.left), "1");
                    assert_eq!(number_text(&inner.right), "2");
                },
                other => panic!("expected the first difference on the left, got {:?}", other),
            }
        },
        other => panic!("expected a difference at the top, got {:?}", other),
    }
}

#[test]
fn missing_right_operand_is_the_end_of_input_error() {
    let mut parser = Parser::new("1-");
    match parser.expresson() {
        Err(SyntaxError::NoContentError(e)) => {
            assert_eq!(e.code, 500);
            assert_eq!(e.describe, "Unexpected end of input");
        },
        other => panic!("expected the end-of-input error, got {:?}", other),
    }
}

#[test]
fn literal_spans_cover_exactly_the_literal_text() {
    let e = parse_expression("007");
    assert_eq!(e.get_position(), (Position::new(0, 0), Position::new(0, 2)));
    let t = parse_expression("true");
    assert_eq!(t.get_position(), (Position::new(0, 0), Position::new(0, 3)));
    let f = parse_expression("false");
    assert_eq!(f.get_position(), (Position::new(0, 0), Position::new(0, 4)));
    let n = parse_expression("null");
    assert_eq!(n.get_position(), (Position::new(0, 0), Position::new(0, 3)));
    let s = parse_expression("\"ab\"");
    assert_eq!(s.get_position(), (Position::new(0, 0), Position::new(0, 2)));
}

#[test]
fn prefix_operators_wrap_right_associatively() {
    let e = parse_expression("-1");
    match &e {
        Exp::Unary(u) => {
            assert!(matches!(u.op.op, UnaryOperatorRow::Negative));
            assert_eq!(number_text(&u.exp), "1");
            assert_eq!(u.start, Position::new(0, 0));
            assert_eq!(u.end, Position::new(0, 1));
        },
        other => panic!("expected a unary node, got {:?}", other),
    }
    let not = parse_expression("!!true");
    match &not {
        Exp::Unary(outer) => {
            assert!(matches!(outer.op.op, UnaryOperatorRow::Not));
            assert!(matches!(&*outer.exp, Exp::Unary(_)));
        },
        other => panic!("expected nested unary nodes, got {:?}", other),
    }
}

#[test]
fn unclosed_group_reports_end_of_input() {
    let mut parser = Parser::new("(1");
    match parser.expresson() {
        Err(SyntaxError::NoContentError(_)) => {},
        other => panic!("expected the end-of-input error, got {:?}", other),
    }
}

#[test]
fn wrong_token_after_group_is_unexpected() {
    let mut parser = Parser::new("(1 2");
    match parser.expresson() {
        Err(SyntaxError::ParseError(e)) => {
            assert_eq!(e.code, 400);
            assert_eq!(e.describe, "unexpected token");
            assert_eq!(e.position, Position::new(0, 3));
        },
        other => panic!("expected a parse error, got {:?}", other),
    }
}

#[test]
fn operator_token_with_no_operand_is_unexpected() {
    let mut parser = Parser::new("*1");
    match parser.expresson() {
        Err(SyntaxError::ParseError(e)) => {
            assert_eq!(e.describe, "unexpected token");
            assert_eq!(e.position, Position::new(0, 0));
        },
        other => panic!("expected a parse error, got {:?}", other),
    }
}

#[test]
fn scan_error_during_parsing_becomes_a_parse_error() {
    let mut parser = Parser::new("1 + @");
    match parser.expresson() {
        Err(SyntaxError::ParseError(e)) => {
            assert_eq!(e.code, 400);
            assert_eq!(e.describe, "unexpected char");
            assert_eq!(e.position, Position::new(0, 4));
        },
        other => panic!("expected the converted lexing error, got {:?}", other),
    }
}

#[test]
fn operator_and_literal_length_helpers() {
    assert_eq!(BinaryOpeatorRow::Eq.len(), 2);
    assert_eq!(BinaryOpeatorRow::NotEq.len(), 2);
    assert_eq!(BinaryOpeatorRow::GreaterEq.len(), 2);
    assert_eq!(BinaryOpeatorRow::LessEq.len(), 2);
    assert_eq!(BinaryOpeatorRow::Plus.len(), 1);
    assert_eq!(BinaryOpeatorRow::Div.len(), 1);
    assert_eq!(UnaryOperatorRow::Not.len(), 1);
    assert_eq!(UnaryOperatorRow::Negative.len(), 1);
    assert_eq!(PrimaryRow::True.len(), 4);
    assert_eq!(PrimaryRow::False.len(), 5);
    assert_eq!(PrimaryRow::Null.len(), 4);
    assert_eq!(PrimaryRow::Number(String::from("007")).len(), 3);
}
