use scriptfront::error::SyntaxError;
use scriptfront::parser::ast::{Exp, PrimaryRow, StateMent};
use scriptfront::scanner::TokenRow;
use scriptfront::parser::Parser;
use scriptfront::scanner::Position;

fn parse_program(source: &str) -> Vec<StateMent> {
    let mut parser = Parser::new(source);
    match parser.programing() {
        Ok(v) => v,
        Err(e) => panic!("expected a program for {:?}, got {:?}", source, e),
    }
}

#[test]
fn missing_terminator_fails_one_column_past_the_statement() {
    let mut parser = Parser::new("let a = 2");
    match parser.programing() {
        Err(SyntaxError::ParseError(e)) => {
            assert_eq!(e.code, 400);
            assert_eq!(e.describe, "\";\" is expected");
            assert_eq!(e.position, Position::new(0, 9));
        },
        other => panic!("expected a parse error, got {:?}", other),
    }
}

#[test]
fn terminated_declaration_parses_to_one_statement() {
    let program = parse_program("let a = 2;");
    assert_eq!(program.len(), 1);
    match &program[0] {
        StateMent::Declare(d) => {
            assert_eq!(d.variable_name, "a");
            assert_eq!(d.start, Position::new(0, 0));
            assert_eq!(d.end, Position::new(0, 8));
            match &d.value.0 {
                Exp::Primary(p) => assert!(matches!(&p.exp, PrimaryRow::Number(n) if n == "2")),
                other => panic!("expected a number value, got {:?}", other),
            }
        },
        other => panic!("expected a declaration, got {:?}", other),
    }
}

#[test]
fn stray_semicolons_are_absorbed() {
    let program = parse_program(";;;let a=2;;;;");
    assert_eq!(program.len(), 1);
    assert!(matches!(&program[0], StateMent::Declare(_)));
}

#[test]
fn only_semicolons_make_an_empty_program() {
    assert_eq!(parse_program(";;;").len(), 0);
    assert_eq!(parse_program("").len(), 0);
}

#[test]
fn block_structured_statement_needs_no_terminator() {
    let program = parse_program("if(1){1;}let a=2;");
    assert_eq!(program.len(), 2);
    assert!(matches!(&program[0], StateMent::If(_)));
    assert!(matches!(&program[1], StateMent::Declare(_)));
}

#[test]
fn for_loop_clauses_are_each_optional() {
    let program = parse_program("for(;;){}");
    assert_eq!(program.len(), 1);
    match &program[0] {
        StateMent::For(f) => {
            assert!(f.init_statement.is_none());
            assert!(f.condition.is_none());
            assert!(f.next_statement.is_none());
            match &*f.body {
                StateMent::Block(b) => assert_eq!(b.body.len(), 0),
                other => panic!("expected a block body, got {:?}", other),
            }
            assert_eq!(f.start, Position::new(0, 0));
            assert_eq!(f.end, Position::new(0, 8));
        },
        other => panic!("expected a for statement, got {:?}", other),
    }
}

#[test]
fn for_loop_with_all_clauses_present() {
    let program = parse_program("for(let i=0;1<3;a=1){1;}");
    assert_eq!(program.len(), 1);
    match &program[0] {
        StateMent::For(f) => {
            assert!(matches!(f.init_statement.as_deref(), Some(StateMent::Declare(_))));
            assert!(matches!(&f.condition, Some(Exp::Binary(_))));
            assert!(matches!(f.next_statement.as_deref(), Some(StateMent::Assign(_))));
        },
        other => panic!("expected a for statement, got {:?}", other),
    }
}

#[test]
fn assignment_is_told_from_an_expression_by_lookahead() {
    let program = parse_program("a=1;2;");
    assert_eq!(program.len(), 2);
    match &program[0] {
        StateMent::Assign(a) => {
            assert_eq!(a.variable_name, "a");
            assert_eq!(a.start, Position::new(0, 0));
            assert_eq!(a.end, Position::new(0, 2));
        },
        other => panic!("expected an assignment, got {:?}", other),
    }
    assert!(matches!(&program[1], StateMent::Expression(_)));
}

#[test]
fn if_with_else_spans_to_the_else_branch() {
    let program = parse_program("if(1){1;}else{2;}");
    assert_eq!(program.len(), 1);
    match &program[0] {
        StateMent::If(i) => {
            assert!(i.else_branch.is_some());
            assert_eq!(i.start, Position::new(0, 0));
            assert_eq!(i.end, Position::new(0, 16));
        },
        other => panic!("expected an if statement, got {:?}", other),
    }
}

#[test]
fn if_missing_open_paren_is_reported_past_the_keyword() {
    let mut parser = Parser::new("if 1){}");
    match parser.programing() {
        Err(SyntaxError::ParseError(e)) => {
            assert_eq!(e.describe, "\"(\" is expected");
            assert_eq!(e.position, Position::new(0, 1));
        },
        other => panic!("expected a parse error, got {:?}", other),
    }
}

#[test]
fn while_statement_spans_to_its_body() {
    let program = parse_program("while(1){1;}");
    assert_eq!(program.len(), 1);
    match &program[0] {
        StateMent::While(w) => {
            assert!(matches!(&w.condition, Exp::Primary(_)));
            assert_eq!(w.start, Position::new(0, 0));
            assert_eq!(w.end, Position::new(0, 11));
        },
        other => panic!("expected a while statement, got {:?}", other),
    }
}

#[test]
fn bare_return_spans_six_columns_and_keeps_no_expression() {
    let program = parse_program("return;");
    assert_eq!(program.len(), 1);
    match &program[0] {
        StateMent::Return(r) => {
            assert!(r.exp.is_none());
            assert_eq!(r.start, Position::new(0, 0));
            assert_eq!(r.end, Position::new(0, 6));
        },
        other => panic!("expected a return statement, got {:?}", other),
    }
}

#[test]
fn return_with_value_spans_to_the_expression() {
    let program = parse_program("return 1+2;");
    assert_eq!(program.len(), 1);
    match &program[0] {
        StateMent::Return(r) => {
            assert!(matches!(&r.exp, Some(Exp::Binary(_))));
            assert_eq!(r.end, Position::new(0, 9));
        },
        other => panic!("expected a return statement, got {:?}", other),
    }
}

#[test]
fn nested_blocks_span_their_braces() {
    let program = parse_program("{1;{2;}}");
    assert_eq!(program.len(), 1);
    match &program[0] {
        StateMent::Block(b) => {
            assert_eq!(b.body.len(), 2);
            assert_eq!(b.start, Position::new(0, 0));
            assert_eq!(b.end, Position::new(0, 7));
            assert!(matches!(&b.body[1], StateMent::Block(_)));
        },
        other => panic!("expected a block, got {:?}", other),
    }
}

#[test]
fn unclosed_block_reports_end_of_input() {
    let mut parser = Parser::new("{1;");
    match parser.programing() {
        Err(SyntaxError::NoContentError(_)) => {},
        other => panic!("expected the end-of-input error, got {:?}", other),
    }
}

#[test]
fn function_declaration_with_empty_parameter_list() {
    let program = parse_program("function ff(){}");
    assert_eq!(program.len(), 1);
    match &program[0] {
        StateMent::FunctionDeclare(f) => {
            assert_eq!(f.name, "ff");
            assert_eq!(f.args.len(), 0);
            assert_eq!(f.body.body.len(), 0);
            assert_eq!(f.start, Position::new(0, 0));
            assert_eq!(f.end, Position::new(0, 14));
        },
        other => panic!("expected a function declaration, got {:?}", other),
    }
}

#[test]
fn function_parameters_are_kept_as_raw_tokens() {
    let program = parse_program("function f(a,b){return 1;}");
    assert_eq!(program.len(), 1);
    match &program[0] {
        StateMent::FunctionDeclare(f) => {
            assert_eq!(f.args.len(), 3);
            assert!(f.args[0].token == TokenRow::Identifier(String::from("a")));
            assert!(f.args[1].token == TokenRow::Comma);
            assert!(f.args[2].token == TokenRow::Identifier(String::from("b")));
        },
        other => panic!("expected a function declaration, got {:?}", other),
    }
}

#[test]
fn missing_function_name_is_reported_past_the_keyword() {
    let mut parser = Parser::new("function (){}");
    match parser.programing() {
        Err(SyntaxError::ParseError(e)) => {
            assert_eq!(e.describe, "function name is expected");
            assert_eq!(e.position, Position::new(0, 1));
        },
        other => panic!("expected a parse error, got {:?}", other),
    }
}

#[test]
fn lexing_error_surfaces_from_the_program_entry() {
    let mut parser = Parser::new("let a = @;");
    match parser.programing() {
        Err(SyntaxError::ParseError(e)) => {
            assert_eq!(e.describe, "unexpected char");
            assert_eq!(e.position, Position::new(0, 8));
        },
        other => panic!("expected the converted lexing error, got {:?}", other),
    }
}

#[test]
fn statements_across_lines_keep_their_rows() {
    let program = parse_program("let a = 1;\nlet b = 2;");
    assert_eq!(program.len(), 2);
    match &program[1] {
        StateMent::Declare(d) => {
            assert_eq!(d.start, Position::new(1, 0));
        },
        other => panic!("expected a declaration, got {:?}", other),
    }
}
