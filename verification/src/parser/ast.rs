//! The abstract syntax tree: expression nodes, statement nodes, operators,
//! and the parse error. Every node carries its source span; composite nodes
//! take their span from their children, literal nodes from their text.

use vstd::prelude::*;

use crate::lexing::Lexeme;
use crate::scanner::{Position, Token, TokenRow};

verus! {

/// Reported when a well-formed but unexpected token stands where the grammar
/// requires something else; carries the position to report and a
/// human-readable expectation.
#[derive(Debug)]
pub struct ParseError {
    pub code: i32,
    pub describe: String,
    pub position: Position,
}

impl ParseError {
    /// The plain "unexpected token" error, at the offending token's position.
    pub fn from(position: Position) -> (r: Self)
        ensures
            r.code == 400,
            r.describe@ == "unexpected token"@,
            r.position == position,
    {
        Self { code: 400, describe: String::from_str("unexpected token"), position }
    }
}

impl Clone for ParseError {
    fn clone(&self) -> (r: Self)
        ensures
            r == *self,
    {
        Self { code: self.code, describe: self.describe.clone(), position: self.position }
    }
}

/// A literal expression: a number (kept as its digit text), a string, or one
/// of the keyword literals.
#[derive(Debug)]
pub enum PrimaryRow {
    Number(String),
    String(String),
    True,
    False,
    Null,
}

/// The character length of a literal's text, which its span covers.
pub open spec fn primary_len(p: PrimaryRow) -> nat {
    match p {
        PrimaryRow::Number(s) => s@.len(),
        PrimaryRow::String(s) => s@.len(),
        PrimaryRow::True => 4,
        PrimaryRow::False => 5,
        PrimaryRow::Null => 4,
    }
}

impl PrimaryRow {
    pub fn len(&self) -> (r: usize)
        ensures
            r == primary_len(*self),
    {
        match self {
            PrimaryRow::Number(n) => n.as_str().unicode_len(),
            PrimaryRow::String(s) => s.as_str().unicode_len(),
            PrimaryRow::True => 4,
            PrimaryRow::False => 5,
            PrimaryRow::Null => 4,
        }
    }
}

/// A binary operator kind.
#[derive(Debug)]
pub enum BinaryOpeatorRow {
    Eq,
    NotEq,
    Greater,
    GreaterEq,
    Less,
    LessEq,
    Plus,
    Minus,
    Multip,
    Div,
}

/// The character length of a binary operator's text.
pub open spec fn binary_len(op: BinaryOpeatorRow) -> nat {
    match op {
        BinaryOpeatorRow::Eq => 2,
        BinaryOpeatorRow::NotEq => 2,
        BinaryOpeatorRow::Greater => 1,
        BinaryOpeatorRow::GreaterEq => 2,
        BinaryOpeatorRow::Less => 1,
        BinaryOpeatorRow::LessEq => 2,
        BinaryOpeatorRow::Plus => 1,
        BinaryOpeatorRow::Minus => 1,
        BinaryOpeatorRow::Multip => 1,
        BinaryOpeatorRow::Div => 1,
    }
}

impl BinaryOpeatorRow {
    pub fn len(&self) -> (r: usize)
        ensures
            r == binary_len(*self),
    {
        match self {
            BinaryOpeatorRow::Eq => 2,
            BinaryOpeatorRow::NotEq => 2,
            BinaryOpeatorRow::Greater => 1,
            BinaryOpeatorRow::GreaterEq => 2,
            BinaryOpeatorRow::Less => 1,
            BinaryOpeatorRow::LessEq => 2,
            BinaryOpeatorRow::Plus => 1,
            BinaryOpeatorRow::Minus => 1,
            BinaryOpeatorRow::Multip => 1,
            BinaryOpeatorRow::Div => 1,
        }
    }
}

/// Which binary operator an operator token denotes.
pub open spec fn binary_op_of(l: Lexeme) -> BinaryOpeatorRow {
    match l {
        Lexeme::DoubleEq => BinaryOpeatorRow::Eq,
        Lexeme::NotEq => BinaryOpeatorRow::NotEq,
        Lexeme::Greater => BinaryOpeatorRow::Greater,
        Lexeme::GreaterEq => BinaryOpeatorRow::GreaterEq,
        Lexeme::Less => BinaryOpeatorRow::Less,
        Lexeme::LessEq => BinaryOpeatorRow::LessEq,
        Lexeme::Plus => BinaryOpeatorRow::Plus,
        Lexeme::Minus => BinaryOpeatorRow::Minus,
        Lexeme::Start => BinaryOpeatorRow::Multip,
        Lexeme::Div => BinaryOpeatorRow::Div,
        _ => BinaryOpeatorRow::Eq,
    }
}

/// A binary operator with the span of its token text.
#[derive(Debug)]
pub struct BinaryOpeator {
    pub op: BinaryOpeatorRow,
    pub start: Position,
    pub end: Position,
}

/// The position `len` characters after `p` on the same row, pointing at the
/// last character of a token of that length (for a nonempty token).
pub open spec fn end_of_text(p: Position, len: nat) -> Position {
    Position { row: p.row, col: (if len == 0 { p.col as int } else { p.col + len - 1 }) as usize }
}

impl BinaryOpeator {
    /// Classifies an operator token and gives it the span of its text.
    pub fn new(token: Token) -> (r: Self)
        requires
            token.position.col < usize::MAX,
        ensures
            r == (BinaryOpeator {
                op: binary_op_of(token.token@),
                start: token.position,
                end: end_of_text(token.position, binary_len(binary_op_of(token.token@))),
            }),
    {
        let op_row = match token.token {
            TokenRow::DoubleEq => BinaryOpeatorRow::Eq,
            TokenRow::NotEq => BinaryOpeatorRow::NotEq,
            TokenRow::Greater => BinaryOpeatorRow::Greater,
            TokenRow::GreaterEq => BinaryOpeatorRow::GreaterEq,
            TokenRow::Less => BinaryOpeatorRow::Less,
            TokenRow::LessEq => BinaryOpeatorRow::LessEq,
            TokenRow::Plus => BinaryOpeatorRow::Plus,
            TokenRow::Minus => BinaryOpeatorRow::Minus,
            TokenRow::Start => BinaryOpeatorRow::Multip,
            TokenRow::Div => BinaryOpeatorRow::Div,
            _ => BinaryOpeatorRow::Eq,
        };
        let op_len = op_row.len() - 1;
        Self {
            op: op_row,
            start: token.position,
            end: Position::new(token.position.row, token.position.col + op_len),
        }
    }
}

/// A unary operator kind: logical not, or arithmetic negation.
#[derive(Debug)]
pub enum UnaryOperatorRow {
    Not,
    Negative,
}

/// The character length of a unary operator's text.
pub open spec fn unary_len(op: UnaryOperatorRow) -> nat {
    match op {
        UnaryOperatorRow::Not => 1,
        UnaryOperatorRow::Negative => 1,
    }
}

impl UnaryOperatorRow {
    pub fn len(&self) -> (r: usize)
        ensures
            r == unary_len(*self),
    {
        match self {
            UnaryOperatorRow::Not => 1,
            UnaryOperatorRow::Negative => 1,
        }
    }
}

/// Which unary operator an operator token denotes.
pub open spec fn unary_op_of(l: Lexeme) -> UnaryOperatorRow {
    match l {
        Lexeme::Exclamation => UnaryOperatorRow::Not,
        Lexeme::Minus => UnaryOperatorRow::Negative,
        _ => UnaryOperatorRow::Negative,
    }
}

/// A unary operator with the span of its token text.
#[derive(Debug)]
pub struct UnaryOperator {
    pub op: UnaryOperatorRow,
    pub start: Position,
    pub end: Position,
}

impl UnaryOperator {
    /// Classifies a prefix-operator token and gives it the span of its text.
    pub fn new(token: Token) -> (r: Self)
        ensures
            r == (UnaryOperator {
                op: unary_op_of(token.token@),
                start: token.position,
                end: token.position,
            }),
    {
        let op_row = match token.token {
            TokenRow::Exclamation => UnaryOperatorRow::Not,
            TokenRow::Minus => UnaryOperatorRow::Negative,
            _ => UnaryOperatorRow::Negative,
        };
        Self { op: op_row, start: token.position, end: token.position }
    }
}

/// A literal expression node with its span.
#[derive(Debug)]
pub struct PrimaryExpression {
    pub exp: PrimaryRow,
    pub start: Position,
    pub end: Position,
}

/// A prefix-operator application with its span.
#[derive(Debug)]
pub struct UanryExpression {
    pub op: UnaryOperator,
    pub exp: Box<Exp>,
    pub start: Position,
    pub end: Position,
}

/// A binary-operator application with its span.
#[derive(Debug)]
pub struct BinaryExpression {
    pub op: BinaryOpeator,
    pub left: Box<Exp>,
    pub right: Box<Exp>,
    pub start: Position,
    pub end: Position,
}

/// A parenthesized expression; its span runs from `(` to `)`.
#[derive(Debug)]
pub struct GroupExpression {
    pub exp: Box<Exp>,
    pub start: Position,
    pub end: Position,
}

/// An expression node: one of the four node kinds, each carrying its span.
#[derive(Debug)]
pub enum Exp {
    Primary(PrimaryExpression),
    Unary(UanryExpression),
    Binary(BinaryExpression),
    Group(GroupExpression),
}

impl Exp {
    /// The node's source span.
    pub open spec fn span(&self) -> (Position, Position) {
        match self {
            Exp::Primary(e) => (e.start, e.end),
            Exp::Unary(e) => (e.start, e.end),
            Exp::Binary(e) => (e.start, e.end),
            Exp::Group(e) => (e.start, e.end),
        }
    }

    pub fn get_position(&self) -> (r: (Position, Position))
        ensures
            r == self.span(),
    {
        match self {
            Exp::Primary(e) => e.get_position(),
            Exp::Unary(e) => e.get_position(),
            Exp::Binary(e) => e.get_position(),
            Exp::Group(e) => e.get_position(),
        }
    }
}

impl PrimaryExpression {
    pub fn get_position(&self) -> (r: (Position, Position))
        ensures
            r == (self.start, self.end),
    {
        (self.start, self.end)
    }

    /// Builds a literal node at `position`: its span covers exactly the
    /// literal's text.
    pub fn new(exp: PrimaryRow, position: Position) -> (r: Exp)
        requires
            position.col + primary_len(exp) <= usize::MAX,
        ensures
            r == Exp::Primary(
                PrimaryExpression {
                    exp,
                    start: position,
                    end: end_of_text(position, primary_len(exp)),
                },
            ),
    {
        let op_len = {
            let l = exp.len();
            if l == 0 {
                0
            } else {
                l - 1
            }
        };
        let e = Self { exp, start: position, end: Position::new(position.row, position.col + op_len) };
        Exp::Primary(e)
    }
}

impl UanryExpression {
    pub fn get_position(&self) -> (r: (Position, Position))
        ensures
            r == (self.start, self.end),
    {
        (self.start, self.end)
    }

    /// Wraps an operand under a prefix operator: the span runs from the
    /// operator to the operand's end.
    pub fn new(op: UnaryOperator, exp: Exp) -> (r: Exp)
        ensures
            r == Exp::Unary(
                UanryExpression { start: op.start, end: exp.span().1, op, exp: Box::new(exp) },
            ),
    {
        let start = op.start;
        let end = exp.get_position().1;
        Exp::Unary(Self { op, exp: Box::new(exp), start, end })
    }
}

impl BinaryExpression {
    pub fn get_position(&self) -> (r: (Position, Position))
        ensures
            r == (self.start, self.end),
    {
        (self.start, self.end)
    }

    /// Joins two operands under a binary operator: the span start is the
    /// left operand's start and the span end is the right operand's end.
    pub fn new(op: BinaryOpeator, left: Exp, right: Exp) -> (r: Exp)
        ensures
            r == Exp::Binary(
                BinaryExpression {
                    start: left.span().0,
                    end: right.span().1,
                    op,
                    left: Box::new(left),
                    right: Box::new(right),
                },
            ),
    {
        let start = left.get_position().0;
        let end = right.get_position().1;
        Exp::Binary(Self { op, left: Box::new(left), right: Box::new(right), start, end })
    }
}

impl GroupExpression {
    pub fn get_position(&self) -> (r: (Position, Position))
        ensures
            r == (self.start, self.end),
    {
        (self.start, self.end)
    }

    /// Wraps a parenthesized expression: the span is the pair of paren
    /// positions handed in.
    pub fn new(exp: Exp, position: (Position, Position)) -> (r: Exp)
        ensures
            r == Exp::Group(
                GroupExpression { exp: Box::new(exp), start: position.0, end: position.1 },
            ),
    {
        let (start, end) = position;
        Exp::Group(Self { exp: Box::new(exp), start, end })
    }
}

/// A statement whose payload is one expression; requires a terminating
/// semicolon.
#[derive(Debug)]
pub struct ExpressionStatement {
    pub exp: Exp,
    pub start: Position,
    pub end: Position,
}

/// `let name = expr`; requires a terminating semicolon.
#[derive(Debug)]
pub struct DeclareStatement {
    pub variable_name: String,
    pub value: RightValueExpression,
    pub start: Position,
    pub end: Position,
}

/// `name = expr`; requires a terminating semicolon.
#[derive(Debug)]
pub struct AssignStatement {
    pub variable_name: String,
    pub value: RightValueExpression,
    pub start: Position,
    pub end: Position,
}

/// `if (condition) then-branch [else else-branch]`; block-structured, no
/// terminator required.
#[derive(Debug)]
pub struct IfStatement {
    pub condition: Exp,
    pub then_branch: Box<StateMent>,
    pub else_branch: Option<Box<StateMent>>,
    pub start: Position,
    pub end: Position,
}

/// `while (condition) body`; block-structured, no terminator required.
#[derive(Debug)]
pub struct WhileStatement {
    pub condition: Exp,
    pub body: Box<StateMent>,
    pub start: Position,
    pub end: Position,
}

/// `for ([init]; [condition]; [step]) body`, each clause independently
/// optional; block-structured, no terminator required.
#[derive(Debug)]
pub struct ForStatement {
    pub init_statement: Option<Box<StateMent>>,
    pub condition: Option<Exp>,
    pub next_statement: Option<Box<StateMent>>,
    pub body: Box<StateMent>,
    pub start: Position,
    pub end: Position,
}

/// `{ statements }`; block-structured, no terminator required.
#[derive(Debug)]
pub struct Block {
    pub body: Vec<StateMent>,
    pub start: Position,
    pub end: Position,
}

/// `function name(params) { body }`; block-structured, no terminator
/// required. Parameters are kept as the raw tokens between the parentheses.
#[derive(Debug)]
pub struct FunctionDeclareStatement {
    pub name: String,
    pub args: Vec<Token>,
    pub body: Block,
    pub start: Position,
    pub end: Position,
}

/// `return [expr]`; requires a terminating semicolon.
#[derive(Debug)]
pub struct ReturnStatement {
    pub exp: Option<Exp>,
    pub start: Position,
    pub end: Position,
}

/// A statement node: one of the nine statement kinds, each carrying its span.
#[derive(Debug)]
pub enum StateMent {
    Expression(ExpressionStatement),
    Declare(DeclareStatement),
    Assign(AssignStatement),
    If(IfStatement),
    While(WhileStatement),
    For(ForStatement),
    Block(Block),
    FunctionDeclare(FunctionDeclareStatement),
    Return(ReturnStatement),
}

/// A statement as the model sees it: textual payloads are character
/// sequences and statement lists are mathematical sequences.
#[allow(inconsistent_fields)]
pub enum StmtV {
    Expression { exp: Exp, start: Position, end: Position },
    Declare { name: Seq<char>, value: Exp, start: Position, end: Position },
    Assign { name: Seq<char>, value: Exp, start: Position, end: Position },
    If {
        condition: Exp,
        then_branch: Box<StmtV>,
        else_branch: Option<Box<StmtV>>,
        start: Position,
        end: Position,
    },
    While { condition: Exp, body: Box<StmtV>, start: Position, end: Position },
    For {
        init: Option<Box<StmtV>>,
        condition: Option<Exp>,
        step: Option<Box<StmtV>>,
        body: Box<StmtV>,
        start: Position,
        end: Position,
    },
    Block { body: Seq<StmtV>, start: Position, end: Position },
    FunctionDeclare {
        name: Seq<char>,
        args: Seq<Token>,
        body: Box<StmtV>,
        start: Position,
        end: Position,
    },
    Return { exp: Option<Exp>, start: Position, end: Position },
}

/// The model view of a block: its statements, in order, with its span.
pub open spec fn block_view(b: Block) -> StmtV
    decreases b,
{
    StmtV::Block { body: stmts_view(b.body@), start: b.start, end: b.end }
}

/// The model view of a statement list.
pub open spec fn stmts_view(v: Seq<StateMent>) -> Seq<StmtV>
    decreases v,
{
    if v.len() == 0 {
        Seq::empty()
    } else {
        seq![stmt_view(v[0])] + stmts_view(v.drop_first())
    }
}

/// The model view of a statement.
pub open spec fn stmt_view(s: StateMent) -> StmtV
    decreases s,
{
    match s {
        StateMent::Expression(e) => StmtV::Expression { exp: e.exp, start: e.start, end: e.end },
        StateMent::Declare(d) => StmtV::Declare {
            name: d.variable_name@,
            value: d.value.0,
            start: d.start,
            end: d.end,
        },
        StateMent::Assign(a) => StmtV::Assign {
            name: a.variable_name@,
            value: a.value.0,
            start: a.start,
            end: a.end,
        },
        StateMent::If(i) => StmtV::If {
            condition: i.condition,
            then_branch: Box::new(stmt_view(*i.then_branch)),
            else_branch: match i.else_branch {
                Some(e) => Some(Box::new(stmt_view(*e))),
                None => None,
            },
            start: i.start,
            end: i.end,
        },
        StateMent::While(w) => StmtV::While {
            condition: w.condition,
            body: Box::new(stmt_view(*w.body)),
            start: w.start,
            end: w.end,
        },
        StateMent::For(f) => StmtV::For {
            init: match f.init_statement {
                Some(s0) => Some(Box::new(stmt_view(*s0))),
                None => None,
            },
            condition: f.condition,
            step: match f.next_statement {
                Some(s0) => Some(Box::new(stmt_view(*s0))),
                None => None,
            },
            body: Box::new(stmt_view(*f.body)),
            start: f.start,
            end: f.end,
        },
        StateMent::Block(b) => block_view(b),
        StateMent::FunctionDeclare(f) => StmtV::FunctionDeclare {
            name: f.name@,
            args: f.args@,
            body: Box::new(block_view(f.body)),
            start: f.start,
            end: f.end,
        },
        StateMent::Return(r) => StmtV::Return { exp: r.exp, start: r.start, end: r.end },
    }
}

impl StmtV {
    /// The statement's source span, at the model level.
    pub open spec fn span(&self) -> (Position, Position) {
        match self {
            StmtV::Expression { start, end, .. } => (*start, *end),
            StmtV::Declare { start, end, .. } => (*start, *end),
            StmtV::Assign { start, end, .. } => (*start, *end),
            StmtV::If { start, end, .. } => (*start, *end),
            StmtV::While { start, end, .. } => (*start, *end),
            StmtV::For { start, end, .. } => (*start, *end),
            StmtV::Block { start, end, .. } => (*start, *end),
            StmtV::FunctionDeclare { start, end, .. } => (*start, *end),
            StmtV::Return { start, end, .. } => (*start, *end),
        }
    }

    /// Whether this statement kind must be followed by a semicolon.
    pub open spec fn need_semi(&self) -> bool {
        match self {
            StmtV::Expression { .. } => true,
            StmtV::Declare { .. } => true,
            StmtV::Assign { .. } => true,
            StmtV::Return { .. } => true,
            StmtV::If { .. } => false,
            StmtV::While { .. } => false,
            StmtV::For { .. } => false,
            StmtV::Block { .. } => false,
            StmtV::FunctionDeclare { .. } => false,
        }
    }
}

impl StateMent {
    /// The statement's source span.
    pub open spec fn span(&self) -> (Position, Position) {
        match self {
            StateMent::Expression(e) => (e.start, e.end),
            StateMent::Declare(e) => (e.start, e.end),
            StateMent::Assign(e) => (e.start, e.end),
            StateMent::If(e) => (e.start, e.end),
            StateMent::While(e) => (e.start, e.end),
            StateMent::For(e) => (e.start, e.end),
            StateMent::Block(e) => (e.start, e.end),
            StateMent::FunctionDeclare(e) => (e.start, e.end),
            StateMent::Return(e) => (e.start, e.end),
        }
    }

    /// Whether this statement kind must be followed by a semicolon.
    pub open spec fn spec_need_semi(&self) -> bool {
        match self {
            StateMent::Expression(_) => true,
            StateMent::Declare(_) => true,
            StateMent::Assign(_) => true,
            StateMent::Return(_) => true,
            StateMent::If(_) => false,
            StateMent::While(_) => false,
            StateMent::For(_) => false,
            StateMent::Block(_) => false,
            StateMent::FunctionDeclare(_) => false,
        }
    }

    pub fn get_position(&self) -> (r: (Position, Position))
        ensures
            r == self.span(),
    {
        match self {
            StateMent::Expression(e) => e.get_position(),
            StateMent::Declare(e) => e.get_position(),
            StateMent::Assign(e) => e.get_position(),
            StateMent::If(e) => e.get_position(),
            StateMent::While(e) => e.get_position(),
            StateMent::For(e) => e.get_position(),
            StateMent::Block(e) => e.get_position(),
            StateMent::FunctionDeclare(e) => e.get_position(),
            StateMent::Return(e) => e.get_position(),
        }
    }

    pub fn need_semi(&self) -> (r: bool)
        ensures
            r == self.spec_need_semi(),
    {
        match self {
            StateMent::Expression(e) => e.need_semi(),
            StateMent::Declare(e) => e.need_semi(),
            StateMent::Assign(e) => e.need_semi(),
            StateMent::If(e) => e.need_semi(),
            StateMent::While(e) => e.need_semi(),
            StateMent::For(e) => e.need_semi(),
            StateMent::Block(e) => e.need_semi(),
            StateMent::FunctionDeclare(e) => e.need_semi(),
            StateMent::Return(e) => e.need_semi(),
        }
    }
}

impl ExpressionStatement {
    /// An expression as a statement: the span is the expression's.
    pub fn new(exp: Exp) -> (r: Self)
        ensures
            r == (ExpressionStatement { start: exp.span().0, end: exp.span().1, exp }),
    {
        let (start, end) = exp.get_position();
        Self { exp, start, end }
    }

    pub fn get_position(&self) -> (r: (Position, Position))
        ensures
            r == (self.start, self.end),
    {
        (self.start, self.end)
    }

    pub fn need_semi(&self) -> (r: bool)
        ensures
            r,
    {
        true
    }
}

impl DeclareStatement {
    /// Builds a declaration from the name token and the parsed right-hand
    /// side. A token of any other kind leaves the name empty.
    pub fn new(variable_token: TokenRow, value: RightValueExpression, position: (Position, Position)) -> (r:
        Self)
        ensures
            r.variable_name@ == (match variable_token@ {
                Lexeme::Identifier(t) => t,
                _ => Seq::<char>::empty(),
            }),
            r.value == value,
            r.start == position.0,
            r.end == position.1,
    {
        Self {
            variable_name: match variable_token {
                TokenRow::Identifier(s) => s,
                _ => String::new(),
            },
            value,
            start: position.0,
            end: position.1,
        }
    }

    /// A declaration has the same payload as an assignment; only the span
    /// start (the `let` keyword) differs, and the caller sets it.
    pub fn from(assign_statement: AssignStatement) -> (r: Self)
        ensures
            r == (DeclareStatement {
                variable_name: assign_statement.variable_name,
                value: assign_statement.value,
                start: assign_statement.start,
                end: assign_statement.end,
            }),
    {
        Self {
            variable_name: assign_statement.variable_name,
            value: assign_statement.value,
            start: assign_statement.start,
            end: assign_statement.end,
        }
    }

    pub fn get_position(&self) -> (r: (Position, Position))
        ensures
            r == (self.start, self.end),
    {
        (self.start, self.end)
    }

    pub fn need_semi(&self) -> (r: bool)
        ensures
            r,
    {
        true
    }
}

impl AssignStatement {
    /// Builds an assignment from the name token and the parsed right-hand
    /// side. A token of any other kind leaves the name empty.
    pub fn new(variable_token: TokenRow, value: RightValueExpression, position: (Position, Position)) -> (r:
        Self)
        ensures
            r.variable_name@ == (match variable_token@ {
                Lexeme::Identifier(t) => t,
                _ => Seq::<char>::empty(),
            }),
            r.value == value,
            r.start == position.0,
            r.end == position.1,
    {
        Self {
            variable_name: match variable_token {
                TokenRow::Identifier(s) => s,
                _ => String::new(),
            },
            value,
            start: position.0,
            end: position.1,
        }
    }

    pub fn get_position(&self) -> (r: (Position, Position))
        ensures
            r == (self.start, self.end),
    {
        (self.start, self.end)
    }

    pub fn need_semi(&self) -> (r: bool)
        ensures
            r,
    {
        true
    }
}

impl IfStatement {
    pub fn new(
        condition: Exp,
        then_branch: Box<StateMent>,
        else_branch: Option<Box<StateMent>>,
        position: (Position, Position),
    ) -> (r: Self)
        ensures
            r == (IfStatement {
                condition,
                then_branch,
                else_branch,
                start: position.0,
                end: position.1,
            }),
    {
        Self { condition, then_branch, else_branch, start: position.0, end: position.1 }
    }

    pub fn get_position(&self) -> (r: (Position, Position))
        ensures
            r == (self.start, self.end),
    {
        (self.start, self.end)
    }

    pub fn need_semi(&self) -> (r: bool)
        ensures
            !r,
    {
        false
    }
}

impl WhileStatement {
    pub fn new(condition: Exp, body: Box<StateMent>, position: (Position, Position)) -> (r: Self)
        ensures
            r == (WhileStatement { condition, body, start: position.0, end: position.1 }),
    {
        Self { condition, body, start: position.0, end: position.1 }
    }

    pub fn get_position(&self) -> (r: (Position, Position))
        ensures
            r == (self.start, self.end),
    {
        (self.start, self.end)
    }

    pub fn need_semi(&self) -> (r: bool)
        ensures
            !r,
    {
        false
    }
}

impl ForStatement {
    pub fn new(
        init_statement: Option<Box<StateMent>>,
        condition: Option<Exp>,
        next_statement: Option<Box<StateMent>>,
        body: Box<StateMent>,
        position: (Position, Position),
    ) -> (r: Self)
        ensures
            r == (ForStatement {
                init_statement,
                condition,
                next_statement,
                body,
                start: position.0,
                end: position.1,
            }),
    {
        Self { init_statement, condition, next_statement, body, start: position.0, end: position.1 }
    }

    pub fn get_position(&self) -> (r: (Position, Position))
        ensures
            r == (self.start, self.end),
    {
        (self.start, self.end)
    }

    pub fn need_semi(&self) -> (r: bool)
        ensures
            !r,
    {
        false
    }
}

impl Block {
    pub fn new(statements: Vec<StateMent>, position: (Position, Position)) -> (r: Self)
        ensures
            r == (Block { body: statements, start: position.0, end: position.1 }),
    {
        Self { body: statements, start: position.0, end: position.1 }
    }

    pub fn get_position(&self) -> (r: (Position, Position))
        ensures
            r == (self.start, self.end),
    {
        (self.start, self.end)
    }

    pub fn need_semi(&self) -> (r: bool)
        ensures
            !r,
    {
        false
    }
}

impl FunctionDeclareStatement {
    pub fn new(name: String, args: Vec<Token>, body: Block, position: (Position, Position)) -> (r:
        Self)
        ensures
            r == (FunctionDeclareStatement { name, args, body, start: position.0, end: position.1 }),
    {
        Self { name, args, body, start: position.0, end: position.1 }
    }

    pub fn get_position(&self) -> (r: (Position, Position))
        ensures
            r == (self.start, self.end),
    {
        (self.start, self.end)
    }

    pub fn need_semi(&self) -> (r: bool)
        ensures
            !r,
    {
        false
    }
}

impl ReturnStatement {
    pub fn new(exp: Option<Exp>, position: (Position, Position)) -> (r: Self)
        ensures
            r == (ReturnStatement { exp, start: position.0, end: position.1 }),
    {
        Self { exp, start: position.0, end: position.1 }
    }

    pub fn get_position(&self) -> (r: (Position, Position))
        ensures
            r == (self.start, self.end),
    {
        (self.start, self.end)
    }

    pub fn need_semi(&self) -> (r: bool)
        ensures
            r,
    {
        true
    }
}

/// Viewing a statement list commutes with appending one statement.
pub proof fn lemma_stmts_view_push(v: Seq<StateMent>, s: StateMent)
    ensures
        stmts_view(v.push(s)) == stmts_view(v) + seq![stmt_view(s)],
    decreases v.len(),
{
    reveal_with_fuel(stmts_view, 2);
    if v.len() == 0 {
        assert(v.push(s)[0] == s);
        assert(v.push(s).drop_first() =~= Seq::<StateMent>::empty());
        assert(stmts_view(v.push(s)) =~= stmts_view(v) + seq![stmt_view(s)]);
    } else {
        lemma_stmts_view_push(v.drop_first(), s);
        assert(v.push(s).drop_first() =~= v.drop_first().push(s));
        assert(v.push(s)[0] == v[0]);
        assert(stmts_view(v.push(s)) =~= stmts_view(v) + seq![stmt_view(s)]);
    }
}

/// The view of a statement keeps its span and its terminator discipline.
pub proof fn lemma_stmt_view_span(s: StateMent)
    ensures
        stmt_view(s).span() == s.span(),
        stmt_view(s).need_semi() == s.spec_need_semi(),
{
    reveal_with_fuel(stmt_view, 2);
    match s {
        StateMent::Expression(_) => {},
        StateMent::Declare(_) => {},
        StateMent::Assign(_) => {},
        StateMent::If(_) => {},
        StateMent::While(_) => {},
        StateMent::For(_) => {},
        StateMent::Block(_) => {},
        StateMent::FunctionDeclare(_) => {},
        StateMent::Return(_) => {},
    }
}

/// The parsed right-hand side of a declaration or assignment; today always
/// an expression, kept as a seam for other right-value forms.
#[derive(Debug)]
pub struct RightValueExpression(pub Exp);

/// What may stand as a right-hand side.
pub trait RightValue {
}

impl RightValue for Exp {

}

impl RightValueExpression {
    pub fn from(expression: Exp) -> (r: Self)
        ensures
            r.0 == expression,
    {
        Self(expression)
    }
}

} // verus!
