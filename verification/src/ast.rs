use vstd::prelude::*;
use std::rc::Rc;
use crate::token::TokenValue;

verus! {

pub type BlockStatement = Vec<Statement>;

/// A parsed program.
#[derive(Debug)]
pub struct Ast {
    pub program: Program,
}

#[derive(Debug)]
pub struct Program {
    pub node: Node,
    pub body: BlockStatement,
}

/// Span of a syntax node, as offsets in bytes into the UTF-8 form of the source.
#[derive(Clone, Copy, Debug, PartialEq, Eq, Structural)]
pub struct Node {
    /// Offset in bytes of the first character.
    pub start: usize,
    /// Offset in bytes behind the last character.
    pub end: usize,
}

impl Node {
    pub fn new(start: usize, end: usize) -> (node: Node)
        ensures
            node.start == start,
            node.end == end,
    {
        Node { start, end }
    }
}

impl Default for Node {
    fn default() -> (node: Node)
        ensures
            node.start == 0,
            node.end == 0,
    {
        Node { start: 0, end: 0 }
    }
}

#[derive(Debug)]
pub struct Identifier {
    pub node: Node,
    pub name: String,
}

#[derive(Debug)]
pub struct Literal {
    pub node: Node,
    pub value: TokenValue,
}

#[derive(Debug)]
pub struct Property {
    pub node: Node,
    pub key: Expression,
    pub value: Expression,
}

#[derive(Debug)]
pub enum Statement {
    ExpressionStatement(Expression),
    ReturnStatement(ReturnStatement),
    ThrowStatement(ThrowStatement),
    ContinueStatement(Node),
    BreakStatement(Node),
    YieldStatement(YieldStatement),
    VariableDeclaration(VariableDeclarator),
    FunctionDeclaration(Rc<FunctionDeclarator>),
    ScopeDeclaration(ScopeDeclarator),
    ContextDeclaration(ContextDeclarator),
    IfStatement(IfStatement),
    ForStatement(Box<ForStatement>),
    WhileStatement(WhileStatement),
    LoopStatement(LoopStatement),
    TryStatement(TryStatement),
    BlockStatement(BlockStatement),
    AssignStatement(AssignStatement),
    ImportStatement(ImportStatement),
}

#[derive(Debug)]
pub struct TryStatement {
    pub node: Node,
    pub body: BlockStatement,
    pub handler: BlockStatement,
    pub finalizer: BlockStatement,
}

#[derive(Debug)]
pub struct LoopStatement {
    pub node: Node,
    pub body: BlockStatement,
}

#[derive(Debug)]
pub struct WhileStatement {
    pub node: Node,
    pub test: Expression,
    pub body: BlockStatement,
}

#[derive(Debug)]
pub struct ForStatement {
    pub node: Node,
    pub init: Statement,
    pub test: Expression,
    pub update: Expression,
    pub body: BlockStatement,
}

#[derive(Debug)]
pub struct ReturnStatement {
    pub node: Node,
    pub argument: Expression,
}

#[derive(Debug)]
pub struct ThrowStatement {
    pub node: Node,
    pub argument: Expression,
}

#[derive(Debug)]
pub struct YieldStatement {
    pub node: Node,
    pub argument: Expression,
}

#[derive(Debug)]
pub struct VariableDeclarator {
    pub node: Node,
    pub id: String,
    /// Shared with the value that a formula binding stores.
    pub init: Rc<Expression>,
    pub is_formula: bool,
}

#[derive(Debug)]
pub struct FunctionDeclarator {
    pub node: Node,
    pub id: String,
    pub params: Vec<String>,
    pub body: BlockStatement,
    pub is_async: bool,
}

#[derive(Debug)]
pub struct ScopeDeclarator {
    pub node: Node,
    pub id: String,
    pub body: BlockStatement,
}

/// A scope declaration whose body sees the scope itself under the name `this`.
#[derive(Debug)]
pub struct ContextDeclarator {
    pub node: Node,
    pub id: String,
    pub body: BlockStatement,
}

#[derive(Debug)]
pub struct IfStatement {
    pub node: Node,
    pub test: Expression,
    pub consequent: BlockStatement,
    pub alternate: BlockStatement,
}

#[derive(Debug)]
pub struct AssignStatement {
    pub node: Node,
    pub left: Identifier,
    pub right: Expression,
    pub operator: AssignOperator,
}

#[derive(Debug)]
pub struct ImportStatement {
    pub node: Node,
    pub source: Identifier,
    pub as_name: Identifier,
}

#[derive(Debug)]
pub enum Expression {
    BinaryExpression(Box<BinaryExpression>),
    UnaryExpression(Box<UnaryExpression>),
    ConditionalExpression(Box<ConditionalExpression>),
    CallExpression(Box<CallExpression>),
    MemberExpression(Box<MemberExpression>),
    SequenceExpression(Box<SequenceExpression>),
    WordExpression(Box<WordExpression>),
    Literal(Literal),
    Identifier(Identifier),
    /// The absent initialiser of a declaration.
    Empty(Node),
}

#[derive(Debug)]
pub struct BinaryExpression {
    pub node: Node,
    pub left: Expression,
    pub operator: BinaryOperator,
    pub right: Expression,
}

#[derive(Debug)]
pub struct UnaryExpression {
    pub node: Node,
    pub operator: UnaryOperator,
    pub right: Expression,
}

#[derive(Debug)]
pub struct ConditionalExpression {
    pub node: Node,
    pub test: Expression,
    pub consequent: Expression,
    pub alternate: Expression,
}

#[derive(Debug)]
pub struct CallExpression {
    pub node: Node,
    pub callee: String,
    /// Always a sequence expression.
    pub arguments: Expression,
}

#[derive(Debug)]
pub struct MemberExpression {
    pub node: Node,
    pub object: Expression,
    pub property: Expression,
    pub is_expr: bool,
}

#[derive(Debug)]
pub struct SequenceExpression {
    pub node: Node,
    pub expressions: Vec<Expression>,
}

#[derive(Debug)]
pub struct WordExpression {
    pub node: Node,
    pub argument: Expression,
    pub operator: WordOperator,
}

#[derive(Clone, Copy, Debug, PartialEq, Eq, Structural)]
pub enum BinaryOperator {
    Add,
    Substract,
    Multiply,
    Divide,
    Power,
    Range,
    Modulo,
    And,
    Or,
    Xor,
    BitAnd,
    BitOr,
    BitXor,
    BitLeftShift,
    BitRightShift,
    Equal,
    NotEqual,
    Less,
    LessEqual,
    Greater,
    GreaterEqual,
}

#[derive(Clone, Copy, Debug, PartialEq, Eq, Structural)]
pub enum UnaryOperator {
    BitNot,
    Not,
    PlusPlus,
    MinusMinus,
    Minus,
    Plus,
}

#[derive(Clone, Copy, Debug, PartialEq, Eq, Structural)]
pub enum AssignOperator {
    Assign,
    PlusAssign,
    MinusAssign,
    MultiplyAssign,
    DivideAssign,
    PowerAssign,
    ModuloAssign,
}

#[derive(Clone, Copy, Debug, PartialEq, Eq, Structural)]
pub enum WordOperator {
    Await,
    Delete,
}

} // verus!
