use vstd::prelude::*;

use crate::tokens::{Span, Token};
use crate::unification::Type;

verus! {

/// A component named in a query, with the name it is bound to.
#[derive(Debug)]
pub struct NamedType {
    pub type_: Token,
    pub name: Token,
}

/// A property of a component: its name and its type.
#[derive(Debug)]
pub struct PropertyDefinition {
    pub name: Token,
    pub type_: Type,
}

impl Clone for PropertyDefinition {
    fn clone(&self) -> (r: Self)
        ensures
            r == *self,
    {
        PropertyDefinition { name: self.name.clone(), type_: self.type_.clone() }
    }
}

/// The operators that take one operand.
#[derive(Debug, Clone, Copy, PartialEq, Eq, Structural)]
pub enum UnaryOperator {
    Negation,
    Not,
}

/// The arithmetic operations.
#[derive(Debug, Clone, Copy, PartialEq, Eq, Structural)]
pub enum ArithmeticOperations {
    Addition,
    Subtraction,
    Multiplication,
    Division,
    Modulus,
}

/// The boolean operations.
#[derive(Debug, Clone, Copy, PartialEq, Eq, Structural)]
pub enum BooleanOperations {
    And,
    Or,
}

/// The string operations.
#[derive(Debug, Clone, Copy, PartialEq, Eq, Structural)]
pub enum StringOperations {
    StringConcat,
}

/// The equality tests.
#[derive(Debug, Clone, Copy, PartialEq, Eq, Structural)]
pub enum EqualityOperations {
    Equal,
    NotEqual,
}

/// The order comparisons.
#[derive(Debug, Clone, Copy, PartialEq, Eq, Structural)]
pub enum Comparisons {
    LessThan,
    LessThanEqual,
    GreaterThan,
    GreaterThanEqual,
}

/// The operators that take two operands, by the kind of operands they take.
#[derive(Debug, Clone, Copy, PartialEq, Eq, Structural)]
pub enum BinaryOperator {
    IntegerOperation(ArithmeticOperations),
    FloatOperation(ArithmeticOperations),
    BooleanOperation(BooleanOperations),
    StringOperation(StringOperations),
    IntegerComparison(Comparisons),
    FloatComparison(Comparisons),
    Equality(EqualityOperations),
}

/// The value a literal or a function expression stands for. A float literal keeps its text.
#[derive(Debug)]
pub enum ValueType {
    Boolean(bool),
    Integer(i32),
    Float(String),
    String(String),
    Function { params: Vec<Token>, expr: Box<Expr> },
}

/// An argument of a call, with the position of its last token.
#[derive(Debug)]
pub struct ExprWithPosition {
    pub expr: Expr,
    pub position: Span,
}

/// An expression of the language.
#[derive(Debug)]
pub enum Expr {
    Identifier { name: Token },
    Grouping(Box<Expr>),
    Value { value: ValueType, token: Token },
    Call { name: Token, args: Vec<ExprWithPosition> },
    Assignment { name: Token, _operator: Token, expr: Box<Expr> },
    Unary { operator: UnaryOperator, _token: Token, expr: Box<Expr> },
    Binary { left: Box<Expr>, operator: BinaryOperator, _token: Token, right: Box<Expr> },
    Block { exprs: Vec<Expr> },
    Is { expr: Box<Expr>, arms: Vec<IsArm> },
}

/// One arm of an `is` expression: a pattern and the block run when it matches.
#[derive(Debug)]
pub struct IsArm {
    pub pattern: IsArmPattern,
    pub block: Expr,
}

/// What an arm of an `is` expression matches.
#[derive(Debug)]
pub enum IsArmPattern {
    Expression(Expr),
    Capture { identifier: Token, condition: Option<Expr> },
    Default,
}

/// An expression as a value, its parts held in sequences.
pub enum Node {
    Identifier(Token),
    Grouping(Box<Node>),
    Value(Val, Token),
    Call(Token, Seq<Arg>),
    Assignment(Token, Token, Box<Node>),
    Unary(UnaryOperator, Token, Box<Node>),
    Binary(Box<Node>, BinaryOperator, Token, Box<Node>),
    Block(Seq<Node>),
    Is(Box<Node>, Seq<Arm>),
}

/// A value as a value.
pub enum Val {
    Boolean(bool),
    Integer(i32),
    Float(Seq<char>),
    String(Seq<char>),
    Function(Seq<Token>, Box<Node>),
}

/// A call argument as a value.
pub struct Arg {
    pub node: Node,
    pub position: Span,
}

/// An arm as a value.
pub struct Arm {
    pub pattern: Pattern,
    pub block: Node,
}

/// A pattern as a value.
pub enum Pattern {
    Expression(Node),
    Capture(Token, Option<Node>),
    Default,
}

/// The value of an expression.
pub open spec fn node_of(e: Expr) -> Node
    decreases e,
{
    match e {
        Expr::Identifier { name } => Node::Identifier(name),
        Expr::Grouping(inner) => Node::Grouping(Box::new(node_of(*inner))),
        Expr::Value { value, token } => Node::Value(val_of(value), token),
        Expr::Call { name, args } => Node::Call(name, args_of(args@)),
        Expr::Assignment { name, _operator, expr } => Node::Assignment(
            name,
            _operator,
            Box::new(node_of(*expr)),
        ),
        Expr::Unary { operator, _token, expr } => Node::Unary(
            operator,
            _token,
            Box::new(node_of(*expr)),
        ),
        Expr::Binary { left, operator, _token, right } => Node::Binary(
            Box::new(node_of(*left)),
            operator,
            _token,
            Box::new(node_of(*right)),
        ),
        Expr::Block { exprs } => Node::Block(nodes_of(exprs@)),
        Expr::Is { expr, arms } => Node::Is(Box::new(node_of(*expr)), arms_of(arms@)),
    }
}

/// The value of a value.
pub open spec fn val_of(v: ValueType) -> Val
    decreases v,
{
    match v {
        ValueType::Boolean(b) => Val::Boolean(b),
        ValueType::Integer(i) => Val::Integer(i),
        ValueType::Float(t) => Val::Float(t@),
        ValueType::String(t) => Val::String(t@),
        ValueType::Function { params, expr } => Val::Function(params@, Box::new(node_of(*expr))),
    }
}

/// The values of a sequence of expressions.
pub open spec fn nodes_of(es: Seq<Expr>) -> Seq<Node>
    decreases es,
{
    if es.len() == 0 {
        Seq::empty()
    } else {
        nodes_of(es.drop_last()).push(node_of(es.last()))
    }
}

/// The values of a sequence of call arguments.
pub open spec fn args_of(es: Seq<ExprWithPosition>) -> Seq<Arg>
    decreases es,
{
    if es.len() == 0 {
        Seq::empty()
    } else {
        args_of(es.drop_last()).push(Arg { node: node_of(es.last().expr), position: es.last().position })
    }
}

/// The values of a sequence of arms.
pub open spec fn arms_of(es: Seq<IsArm>) -> Seq<Arm>
    decreases es,
{
    if es.len() == 0 {
        Seq::empty()
    } else {
        arms_of(es.drop_last()).push(Arm {
            pattern: pattern_of(es.last().pattern),
            block: node_of(es.last().block),
        })
    }
}

/// The value of a pattern.
pub open spec fn pattern_of(p: IsArmPattern) -> Pattern
    decreases p,
{
    match p {
        IsArmPattern::Expression(e) => Pattern::Expression(node_of(e)),
        IsArmPattern::Capture { identifier, condition } => Pattern::Capture(
            identifier,
            match condition {
                Some(c) => Some(node_of(c)),
                None => None,
            },
        ),
        IsArmPattern::Default => Pattern::Default,
    }
}

impl View for Expr {
    type V = Node;

    open spec fn view(&self) -> Node {
        node_of(*self)
    }
}

/// How an arithmetic operation is written.
pub open spec fn arithmetic_symbol(o: ArithmeticOperations) -> Seq<char> {
    match o {
        ArithmeticOperations::Addition => seq!['+'],
        ArithmeticOperations::Subtraction => seq!['-'],
        ArithmeticOperations::Multiplication => seq!['*'],
        ArithmeticOperations::Division => seq!['/'],
        ArithmeticOperations::Modulus => seq!['%'],
    }
}

/// How an order comparison is written.
pub open spec fn comparison_symbol(c: Comparisons) -> Seq<char> {
    match c {
        Comparisons::LessThan => seq!['<'],
        Comparisons::LessThanEqual => seq!['<', '='],
        Comparisons::GreaterThan => seq!['>'],
        Comparisons::GreaterThanEqual => seq!['>', '='],
    }
}

/// How a binary operator is written in source text: float operators take a `.` after the
/// integer ones.
pub open spec fn operator_symbol(op: BinaryOperator) -> Seq<char> {
    match op {
        BinaryOperator::IntegerOperation(o) => arithmetic_symbol(o),
        BinaryOperator::FloatOperation(o) => arithmetic_symbol(o).push('.'),
        BinaryOperator::IntegerComparison(c) => comparison_symbol(c),
        BinaryOperator::FloatComparison(c) => comparison_symbol(c).push('.'),
        BinaryOperator::Equality(EqualityOperations::Equal) => seq!['=', '='],
        BinaryOperator::Equality(EqualityOperations::NotEqual) => seq!['!', '='],
        BinaryOperator::BooleanOperation(BooleanOperations::And) => seq!['a', 'n', 'd'],
        BinaryOperator::BooleanOperation(BooleanOperations::Or) => seq!['o', 'r'],
        BinaryOperator::StringOperation(_) => seq!['{'],
    }
}

/// How a unary operator is written.
pub open spec fn unary_symbol(op: UnaryOperator) -> Seq<char> {
    match op {
        UnaryOperator::Negation => seq!['-'],
        UnaryOperator::Not => seq!['!'],
    }
}

} // verus!
