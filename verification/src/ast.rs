//! The surface syntax tree that the lifecycle checker walks.

use vstd::prelude::*;

verus! {

/// A source location.
#[derive(Debug, Clone, Copy, PartialEq, Eq, Default)]
pub struct Span {
    pub start: usize,
    pub end: usize,
}

#[derive(Debug, Clone, PartialEq, Eq)]
pub enum Type {
    Named(String),
    Primitive(String),
}

#[derive(Debug, Clone, PartialEq, Eq)]
pub enum BindingPattern {
    Name(String),
    Tuple(Vec<String>),
    Wildcard,
}

#[derive(Debug, PartialEq, Eq)]
pub struct CreateExpr {
    pub ty: String,
    pub fields: Vec<(String, Expr)>,
    pub lock: Option<Box<Expr>>,
    pub span: Span,
}

#[derive(Debug, PartialEq, Eq)]
pub struct MatchArm {
    pub pattern: String,
    pub value: Expr,
}

#[derive(Debug, PartialEq, Eq)]
pub enum Expr {
    Integer(u64),
    Bool(bool),
    String(String),
    ByteString(Vec<u8>),
    Identifier(String),
    ReadRef(String),
    Consume(Box<Expr>),
    Create(CreateExpr),
    Assign { target: Box<Expr>, value: Box<Expr> },
    Binary { left: Box<Expr>, right: Box<Expr> },
    Unary(Box<Expr>),
    Call { func: Box<Expr>, args: Vec<Expr> },
    FieldAccess { expr: Box<Expr>, field: String },
    Index { expr: Box<Expr>, index: Box<Expr> },
    Transfer { expr: Box<Expr>, to: Box<Expr> },
    Destroy(Box<Expr>),
    Claim(Box<Expr>),
    Settle(Box<Expr>),
    Assert { condition: Box<Expr>, message: Box<Expr> },
    Require(Box<Expr>),
    Block(Vec<Stmt>),
    Tuple(Vec<Expr>),
    Array(Vec<Expr>),
    If { condition: Box<Expr>, then_branch: Box<Expr>, else_branch: Box<Expr> },
    Cast { expr: Box<Expr>, ty: Type },
    Range { start: Box<Expr>, end: Box<Expr> },
    StructInit { ty: String, fields: Vec<(String, Expr)> },
    Match { expr: Box<Expr>, arms: Vec<MatchArm> },
}

#[derive(Debug, PartialEq, Eq)]
pub enum Stmt {
    Let { pattern: BindingPattern, ty: Option<Type>, value: Expr },
    Expr(Expr),
    Return(Option<Expr>),
    If { condition: Expr, then_branch: Vec<Stmt>, else_branch: Option<Vec<Stmt>> },
    For { binding: String, iterable: Expr, body: Vec<Stmt> },
    While { condition: Expr, body: Vec<Stmt> },
}

#[derive(Debug, Clone, PartialEq, Eq)]
pub struct Param {
    pub name: String,
    pub ty: Type,
}

#[derive(Debug, PartialEq, Eq)]
pub struct ActionDef {
    pub name: String,
    pub params: Vec<Param>,
    pub body: Vec<Stmt>,
}

#[derive(Debug, PartialEq, Eq)]
pub struct FunctionDef {
    pub name: String,
    pub params: Vec<Param>,
    pub body: Vec<Stmt>,
}

#[derive(Debug, PartialEq, Eq)]
pub struct LockDef {
    pub name: String,
    pub params: Vec<Param>,
    pub body: Vec<Stmt>,
}

/// The `Type.field` whose value a state machine governs.
#[derive(Debug, Clone, PartialEq, Eq)]
pub struct StateMachineTarget {
    pub base: String,
    pub field: String,
    pub span: Span,
}

#[derive(Debug, Clone, PartialEq, Eq)]
pub struct Transition {
    pub from: String,
    pub to: String,
}

#[derive(Debug, Clone, PartialEq, Eq)]
pub struct StateMachineDef {
    pub target: StateMachineTarget,
    pub transitions: Vec<Transition>,
    pub span: Span,
}

#[derive(Debug, PartialEq, Eq)]
pub enum Item {
    StateMachine(StateMachineDef),
    Action(ActionDef),
    Function(FunctionDef),
    Lock(LockDef),
    Struct { name: String },
}

#[derive(Debug, PartialEq, Eq)]
pub struct Module {
    pub name: String,
    pub items: Vec<Item>,
}

} // verus!
