//! The abstract syntax that the effect analysis and the C backend read.

use vstd::prelude::*;
use crate::errors::Span;

verus! {

#[derive(Debug, Clone, Copy, PartialEq, Eq, Structural)]
pub enum BinOp {
    Add,
    Sub,
    Mul,
    Div,
    Mod,
    Eq,
    Ne,
    Lt,
    Gt,
    Le,
    Ge,
    And,
    Or,
    BitAnd,
    BitOr,
    BitXor,
    Shl,
    Shr,
}

#[derive(Debug, Clone, Copy, PartialEq, Eq, Structural)]
pub enum UnaryOp {
    Neg,
    Not,
    BitNot,
}

/// The length an array type states.
#[derive(Debug)]
pub enum ArraySize {
    Literal(usize),
    /// A const generic parameter, by name.
    ConstParam(String),
    /// A size expression this pass does not evaluate.
    Expr(Box<Expr>),
}

#[derive(Debug)]
pub enum Type {
    I32,
    I64,
    U32,
    U64,
    F32,
    F64,
    Char,
    Bool,
    String,
    Unit,
    Array(Box<Type>, ArraySize),
    Custom(String),
    TypeParam(String),
    Generic { name: String, args: Vec<Type> },
    Reference { inner: Box<Type>, mutable: bool },
    Future { output: Box<Type> },
    Tuple(Vec<Type>),
}

#[derive(Debug)]
pub struct Param {
    pub name: String,
    pub ty: Type,
    pub mutable: bool,
}

#[derive(Debug)]
pub enum EnumConstructorData {
    Tuple(Vec<Expr>),
    Struct(Vec<(String, Expr)>),
}

#[derive(Debug)]
pub enum Expr {
    Integer(i64),
    String(String),
    Bool(bool),
    Char(char),
    Ident(String),
    Call { func: Box<Expr>, args: Vec<Expr>, span: Span },
    Binary { left: Box<Expr>, op: BinOp, right: Box<Expr>, span: Span },
    Unary { op: UnaryOp, operand: Box<Expr>, span: Span },
    ArrayLiteral { elements: Vec<Expr>, span: Span },
    ArrayRepeat { value: Box<Expr>, count: Box<Expr>, span: Span },
    Index { array: Box<Expr>, index: Box<Expr>, span: Span },
    StructLiteral { name: String, fields: Vec<(String, Expr)>, span: Span },
    FieldAccess { object: Box<Expr>, field: String, span: Span },
    EnumConstructor {
        enum_name: String,
        variant: String,
        data: Option<EnumConstructorData>,
        span: Span,
    },
    Range { start: Box<Expr>, end: Box<Expr>, span: Span },
    Reference { mutable: bool, expr: Box<Expr>, span: Span },
    Deref { expr: Box<Expr>, span: Span },
    Question { expr: Box<Expr>, span: Span },
    Await { expr: Box<Expr>, span: Span },
    MacroInvocation { name: String, span: Span },
    Tuple { elements: Vec<Expr>, span: Span },
    TupleIndex { expr: Box<Expr>, index: usize, span: Span },
    Cast { expr: Box<Expr>, ty: Type, span: Span },
    /// An `if` used for its value: each branch's statements, then its value.
    If {
        condition: Box<Expr>,
        then_branch: Vec<Stmt>,
        then_value: Option<Box<Expr>>,
        else_branch: Option<Vec<Stmt>>,
        else_value: Option<Box<Expr>>,
        span: Span,
    },
    /// A block used for its value: its statements, then its value.
    Block { stmts: Vec<Stmt>, value: Option<Box<Expr>>, span: Span },
    /// A `loop` used for its value, which its `break`s carry.
    Loop { body: Vec<Stmt>, span: Span },
}

/// The place an assignment writes.
#[derive(Debug)]
pub enum AssignTarget {
    Ident(String),
    Index { array: Box<Expr>, index: Box<Expr> },
    FieldAccess { object: Box<Expr>, field: String },
    Deref { expr: Box<Expr> },
}

/// A literal a pattern compares against.
#[derive(Debug)]
pub enum PatternLiteral {
    Int(i64),
    Bool(bool),
}

#[derive(Debug)]
pub enum Pattern {
    Wildcard,
    Ident(String),
    /// `name @ inner`: binds the subject and matches as `inner` does.
    Binding { name: String, inner: Box<Pattern> },
    /// A tuple pattern, element by element.
    Tuple(Vec<Pattern>),
    /// Alternatives: matches when one of them does.
    Or(Vec<Pattern>),
    EnumPattern { enum_name: String, variant: String },
    Literal(PatternLiteral),
    /// `lo..hi` or `lo..=hi`.
    Range { lo: PatternLiteral, hi: PatternLiteral, inclusive: bool },
}

#[derive(Debug)]
pub struct MatchArm {
    pub pattern: Pattern,
    pub body: Vec<Stmt>,
}

#[derive(Debug)]
pub enum Stmt {
    Expr(Expr),
    Let { name: String, ty: Option<Type>, value: Expr, mutable: bool, span: Span },
    Return(Option<Expr>),
    If { condition: Expr, then_branch: Vec<Stmt>, else_branch: Option<Vec<Stmt>>, span: Span },
    While { condition: Expr, body: Vec<Stmt>, span: Span },
    For { var: String, iter: Expr, body: Vec<Stmt>, span: Span },
    Match { expr: Expr, arms: Vec<MatchArm>, span: Span },
    Break { value: Option<Expr>, span: Span },
    Continue { span: Span },
    Unsafe { body: Vec<Stmt>, span: Span },
    Assign { target: AssignTarget, value: Expr, span: Span },
}

/// A struct declaration, as far as code generation reads it: its name and its
/// fields in order.
#[derive(Debug)]
pub struct StructDef {
    pub name: String,
    pub fields: Vec<(String, Type)>,
    pub span: Span,
}

/// What an enum variant carries.
#[derive(Debug)]
pub enum EnumVariantData {
    Unit,
    Tuple(Vec<Type>),
    Struct(Vec<(String, Type)>),
}

/// One variant of an enum declaration.
#[derive(Debug)]
pub struct EnumVariant {
    pub name: String,
    pub data: EnumVariantData,
}

/// An enum declaration: its name and its variants in order.
#[derive(Debug)]
pub struct EnumDef {
    pub name: String,
    pub variants: Vec<EnumVariant>,
    pub span: Span,
}

/// A top-level item, as far as code generation reads one.
#[derive(Debug)]
pub enum Item {
    Function(Function),
    Struct(StructDef),
    Enum(EnumDef),
}

/// A program: its items in order.
#[derive(Debug)]
pub struct Program {
    pub items: Vec<Item>,
}

#[derive(Debug)]
pub struct Function {
    pub name: String,
    pub params: Vec<Param>,
    pub return_type: Option<Type>,
    pub body: Vec<Stmt>,
    pub is_async: bool,
    pub span: Span,
}

} // verus!
