//! The syntax-tree model that the linter analyzes.
//!
//! A parsing and binding collaborator turns source text into these plain
//! values before the linter runs. Every identifier occurrence carries the
//! identity of the declaration it resolves to, when the binder could
//! resolve it; an unresolved occurrence carries no identity and is then
//! never treated as a step object.

use vstd::prelude::*;

verus! {

/// Source range of one call expression, in character offsets.
/// Two syntactically distinct calls never share a span, which makes a
/// span a stable identity key for one call.
#[derive(Clone, Copy, PartialEq, Eq, Structural, Debug)]
pub struct Span {
    pub start: u32,
    pub end: u32,
}

/// A whole parsed source file: its top-level statements.
#[derive(Debug)]
pub struct Program {
    pub body: Vec<Stmt>,
}

/// One statement node. Statement kinds whose children the linter never
/// inspects are collapsed into `Other`.
#[derive(Debug)]
pub enum Stmt {
    Expr(Expr),
    /// A variable declaration: `const`/`let`/`var` with its declarators.
    Var(Vec<Declarator>),
    Func(Function),
    Class(Class),
    Block(Vec<Stmt>),
    If { test: Expr, consequent: Box<Stmt>, alternate: Option<Box<Stmt>> },
    While { test: Expr, body: Box<Stmt> },
    For { init: Option<Vec<Declarator>>, body: Box<Stmt> },
    ForIn { body: Box<Stmt> },
    ForOf { right: Expr, body: Box<Stmt> },
    Return(Option<Expr>),
    Try { block: Vec<Stmt>, handler: Option<Vec<Stmt>>, finalizer: Option<Vec<Stmt>> },
    Switch { discriminant: Expr, cases: Vec<Vec<Stmt>> },
    ExportDefaultFunc(Function),
    ExportDefaultClass(Class),
    ExportDefaultExpr(Expr),
    ExportNamed(Option<Decl>),
    /// An import declaration: the module specifier and its specifiers.
    /// `specifiers` is `None` for a bare `import "m";`.
    Import { source: String, specifiers: Option<Vec<ImportSpecifier>> },
    Other,
}

/// A declaration carried by an `export` statement.
#[derive(Debug)]
pub enum Decl {
    Func(Function),
    Class(Class),
    Var(Vec<Declarator>),
    Other,
}

/// One `name = init` declarator of a variable declaration.
#[derive(Debug)]
pub struct Declarator {
    pub pattern: Pattern,
    pub init: Option<Expr>,
}

/// The binding pattern of a declarator or parameter: either one plain
/// bound name or anything else (destructuring, defaults), which the
/// linter does not track.
#[derive(Debug)]
pub enum Pattern {
    Name { name: String, sym: Option<u32> },
    Other,
}

/// One declared parameter. `type_ref_name` holds the name of the
/// declared type when the annotation is a direct reference to a named
/// type, and nothing otherwise.
#[derive(Debug)]
pub struct Param {
    pub type_ref_name: Option<String>,
    pub pattern: Pattern,
}

/// A function declaration or function expression. A declared function
/// without a body (an overload signature) has `body` `None`.
#[derive(Debug)]
pub struct Function {
    pub params: Vec<Param>,
    pub body: Option<Vec<Stmt>>,
}

/// A class declaration or class expression.
#[derive(Debug)]
pub struct Class {
    pub super_class: Option<Box<Expr>>,
    pub body: Vec<ClassElement>,
}

#[derive(Debug)]
pub enum ClassElement {
    /// A method definition; `name` is its key when the key is a plain
    /// identifier, and `None` for computed or private keys.
    Method { name: Option<String>, value: Function },
    Property { init: Option<Expr> },
    StaticBlock(Vec<Stmt>),
    Other,
}

/// One specifier of an import declaration. Default and namespace
/// imports are `Other`: the classifier only reads named imports.
#[derive(Debug)]
pub enum ImportSpecifier {
    Named { imported: String, local: String, sym: Option<u32> },
    Other,
}

/// One expression node. Expression kinds without sub-expressions the
/// linter cares about are collapsed into `Other`.
#[derive(Debug)]
pub enum Expr {
    /// An identifier reference; `sym` is the identity of the declaration
    /// it resolves to, if the binder resolved it.
    Ident { name: String, sym: Option<u32> },
    Call { callee: Box<Expr>, args: Vec<Arg>, span: Span },
    Await(Box<Expr>),
    Arrow { params: Vec<Param>, body: Vec<Stmt> },
    Func(Function),
    ClassExpr(Class),
    Array(Vec<ArrayElem>),
    Object(Vec<Prop>),
    Conditional { test: Box<Expr>, consequent: Box<Expr>, alternate: Box<Expr> },
    Binary { left: Box<Expr>, right: Box<Expr> },
    Logical { left: Box<Expr>, right: Box<Expr> },
    /// An assignment; the linter only inspects the right-hand side.
    Assign { right: Box<Expr> },
    Sequence(Vec<Expr>),
    Paren(Box<Expr>),
    Unary(Box<Expr>),
    New { callee: Box<Expr>, args: Vec<Arg> },
    StaticMember { object: Box<Expr>, property: String },
    ComputedMember { object: Box<Expr>, index: Box<Expr> },
    PrivateField { object: Box<Expr> },
    TaggedTemplate { tag: Box<Expr> },
    Template(Vec<Expr>),
    Yield(Option<Box<Expr>>),
    Other,
}

/// One argument of a call or `new` expression.
#[derive(Debug)]
pub enum Arg {
    Spread(Expr),
    Plain(Expr),
}

/// One element of an array literal.
#[derive(Debug)]
pub enum ArrayElem {
    Spread(Expr),
    Plain(Expr),
    Elision,
}

/// One property of an object literal.
#[derive(Debug)]
pub enum Prop {
    Property { value: Expr },
    Spread(Expr),
}

} // verus!
