//! The parsed-program model the analyses read: items, statements and expressions of a
//! Yinz module, holding as plain values exactly what the passes inspect.
use vstd::prelude::*;

use crate::diagnostics::SourceSpan;

verus! {

/// A declared parameter-passing mode.
#[derive(Clone, Copy, Debug, PartialEq, Eq)]
pub enum OwnershipModifier {
    /// Read-only borrow.
    Share,
    /// Mutable borrow.
    Lend,
    /// Ownership transfer.
    Give,
}

/// The receiver modifier of a contract method.
#[derive(Clone, Copy, Debug, PartialEq, Eq)]
pub enum ReceiverKind {
    Share,
    Lend,
    Give,
}

/// A method signature declared by a contract (a bare signature in a shape body).
#[derive(Debug)]
pub struct ContractSig {
    pub name: String,
    /// The parameters other than `self`.
    pub params: Vec<Param>,
    pub return_type: AstType,
    /// The `self` modifier, `None` when the receiver is bare or absent.
    pub receiver: Option<ReceiverKind>,
}

/// A type as written in source.
#[derive(Debug)]
pub enum AstType {
    Nothing,
    Int,
    Float,
    /// `number` with its decimal precision.
    Number { precision: u32 },
    Bool,
    /// A bare name (`string`, `Point`, `Status`), with its span.
    Named(String, SourceSpan),
    /// A type the parser could not read.
    Error,
    /// A range type written with bounds.
    Range,
    /// An inline anonymous shape `{ a: int, b: string }`.
    AnonShape { fields: Vec<FieldDecl>, span: SourceSpan },
    /// `dynamic Contract`.
    Dynamic { contract: String },
    /// `Self` inside a contract.
    SelfType,
    /// A type parameter of a generic declaration.
    TypeParam { name: String },
    /// A generic application (`array<int>`, `channel<Order>`, `Pair<A, B>`).
    Generic { name: String, name_span: SourceSpan, args: Vec<AstType> },
    /// `maybe<T>`.
    Maybe { inner: Box<AstType> },
    /// `A | B | …`.
    Union { variants: Vec<AstType> },
    /// `T errors`.
    ErrorCapable { inner: Box<AstType> },
    /// `sensitive T`.
    Sensitive(Box<AstType>),
}

/// A field declared in a shape body (or an inline anonymous shape).
#[derive(Debug)]
pub struct FieldDecl {
    pub name: String,
    pub name_span: SourceSpan,
    pub ty: AstType,
    pub is_hidden: bool,
    pub default: Option<Expr>,
}

/// The two postfix operators.
#[derive(Clone, Copy, Debug, PartialEq, Eq)]
pub enum PostfixOpKind {
    Copy,
    Freeze,
}

/// One `name: value` initializer of a struct literal.
#[derive(Debug)]
pub struct FieldInit {
    pub name: String,
    pub value: Expr,
}

/// A piece of an interpolated string.
#[derive(Debug)]
pub enum StringPart {
    Text(String),
    Expr(Expr, SourceSpan),
}

/// A call `callee(args…)`.
#[derive(Debug)]
pub struct CallExpr {
    pub callee: Box<Expr>,
    pub args: Vec<Expr>,
    pub span: SourceSpan,
}

/// One key/value pair of a map literal.
#[derive(Debug)]
pub struct MapEntryLit {
    pub key: Expr,
    pub value: Expr,
}

/// An expression.
#[derive(Debug)]
pub enum Expr {
    Ident(String, SourceSpan),
    IntLit(i64, SourceSpan),
    NumberLit(String, SourceSpan),
    BoolLit(bool, SourceSpan),
    StringLit(String, SourceSpan),
    InterpolatedString(Vec<StringPart>, SourceSpan),
    SelfValue { span: SourceSpan },
    NoneLit { span: SourceSpan },
    BinOp { lhs: Box<Expr>, op: String, rhs: Box<Expr>, span: SourceSpan },
    UnaryOp { op: String, operand: Box<Expr>, span: SourceSpan },
    Call(CallExpr),
    MethodCall { receiver: Box<Expr>, method: String, args: Vec<Expr>, span: SourceSpan },
    FieldAccess { receiver: Box<Expr>, field: String, span: SourceSpan },
    IndexAccess { receiver: Box<Expr>, index: Box<Expr>, span: SourceSpan },
    StructLit { name: String, fields: Vec<FieldInit>, span: SourceSpan },
    ArrayLit { elements: Vec<Expr>, span: SourceSpan },
    MapLit { entries: Vec<MapEntryLit>, span: SourceSpan },
    Is { expr: Box<Expr>, shape: String, span: SourceSpan },
    PostfixOp { receiver: Box<Expr>, op: PostfixOpKind, span: SourceSpan },
    Background(Box<Expr>, SourceSpan),
    Wait(Box<Expr>, SourceSpan),
    Error(SourceSpan),
}

/// A `{ … }` statement list.
#[derive(Debug)]
pub struct Block {
    pub stmts: Vec<Stmt>,
    pub span: SourceSpan,
}

/// What a match arm tests against.
#[derive(Debug)]
pub enum MatchPatternKind {
    Value(Expr),
    Shape(String),
}

/// A match arm's pattern.
#[derive(Debug)]
pub struct MatchPattern {
    pub kind: MatchPatternKind,
    pub span: SourceSpan,
}

/// One `pattern => body` arm.
#[derive(Debug)]
pub struct MatchArm {
    pub pattern: MatchPattern,
    pub body: Block,
    pub arrow_span: SourceSpan,
}

/// A statement.
#[derive(Debug)]
pub enum Stmt {
    Expr(Expr),
    Let { name: String, name_span: SourceSpan, ty: Option<AstType>, value: Expr, is_const: bool, span: SourceSpan },
    Assign { target: String, value: Expr, span: SourceSpan },
    FieldAssign { target: Expr, value: Expr, span: SourceSpan },
    IndexAssign { receiver: Expr, index: Expr, value: Expr, span: SourceSpan },
    If { cond: Expr, body: Block, span: SourceSpan },
    While { cond: Expr, body: Block, span: SourceSpan },
    For { var: String, var_span: SourceSpan, iter: Expr, body: Block, span: SourceSpan },
    Match { scrutinee: Expr, arms: Vec<MatchArm>, else_arm: Option<Block>, span: SourceSpan },
    Return { value: Option<Expr>, span: SourceSpan },
}

/// A function parameter.
#[derive(Debug)]
pub struct Param {
    pub name: String,
    pub ty: AstType,
    pub ownership: Option<OwnershipModifier>,
}

/// One name of `import { exported as local } from "module"`.
#[derive(Debug)]
pub struct ImportItem {
    pub exported_name: String,
    pub exported_name_span: SourceSpan,
    /// The name bound in the importing file (the exported name unless renamed).
    pub local_name: String,
    pub local_name_span: SourceSpan,
}

/// What an import binds: some named exports, or all of them under a namespace.
#[derive(Debug)]
pub enum ImportKind {
    Named(Vec<ImportItem>),
    Namespace { local_name: String, local_name_span: SourceSpan },
}

/// An `import ... from "module"` declaration.
#[derive(Debug)]
pub struct ImportDecl {
    /// The module path as written, project-root-relative, without `.ynz`.
    pub source: String,
    pub source_span: SourceSpan,
    pub kind: ImportKind,
}

/// A type parameter of a generic function, with the contracts it must follow.
#[derive(Debug)]
pub struct GenericParam {
    pub name: String,
    pub constraints: Vec<(String, SourceSpan)>,
}

/// A function declaration.
#[derive(Debug)]
pub struct FunctionDecl {
    pub name: String,
    pub name_span: SourceSpan,
    /// Type parameters (`<T: Contract>`); empty for a non-generic function.
    pub generics: Vec<GenericParam>,
    pub params: Vec<Param>,
    pub return_type: AstType,
    pub body: Block,
    pub is_exported: bool,
    /// Declared `-> T errors`.
    pub errors_capable: bool,
    pub span: SourceSpan,
}

/// An `options Name { a, b, … }` declaration.
#[derive(Debug)]
pub struct OptionsDecl {
    pub name: String,
    pub name_span: SourceSpan,
    pub variants: Vec<(String, SourceSpan)>,
    pub is_exported: bool,
    pub span: SourceSpan,
}

/// A `shape Name { … }` declaration (or a union alias `shape S = A | B`).
#[derive(Debug)]
pub struct ShapeDecl {
    pub name: String,
    pub name_span: SourceSpan,
    pub is_base: bool,
    /// The names of its type parameters (empty for a concrete shape).
    pub generics: Vec<String>,
    /// The parent named by `extends`, with its span.
    pub extends: Option<(String, SourceSpan)>,
    /// The contracts named by `follows`, with their spans.
    pub follows: Vec<(String, SourceSpan)>,
    pub fields: Vec<FieldDecl>,
    pub contract_sigs: Vec<ContractSig>,
    /// The aliased type of a union alias declaration.
    pub alias_ty: Option<AstType>,
    pub is_exported: bool,
    pub span: SourceSpan,
}

/// A top-level item.
#[derive(Debug)]
pub enum Item {
    Function(FunctionDecl),
    OptionsDecl(OptionsDecl),
    ShapeDecl(ShapeDecl),
}

/// A parsed source file.
#[derive(Debug)]
pub struct Module {
    pub items: Vec<Item>,
    pub span: SourceSpan,
}

} // verus!
