use vstd::prelude::*;
use crate::ident::{Ident, Span};

verus! {

/// A path as written: an optional leading root marker and its segments.
#[derive(Debug)]
pub struct ExprPath {
    pub root: Option<Span>,
    pub path: Vec<Ident>,
}

/// One entry of an import list: a single path, or a shared offset applied to
/// a nested list (`offset::{a, b::c}`).
#[derive(Debug)]
pub enum Imports {
    Single(ExprPath),
    Multiple(ExprPath, Vec<Imports>),
}

/// `from::{...}`: the path imported from, and what is imported.
#[derive(Debug)]
pub struct ItemImports {
    pub from: ExprPath,
    pub imports: Vec<Imports>,
}

#[derive(Debug)]
pub struct NameTyPair {
    pub name: Ident,
    pub ty: ItemTy,
}

#[derive(Debug)]
pub struct TyStruct {
    pub span_struct: Span,
    pub fields: Vec<NameTyPair>,
}

#[derive(Debug)]
pub struct TyEnum {
    pub span_enum: Span,
    pub variants: Vec<(Ident, Option<TyTuple>)>,
}

#[derive(Debug)]
pub struct TyTuple {
    pub span: Span,
    pub types: Vec<ItemTy>,
}

#[derive(Debug)]
pub struct TyFunc {
    pub span_func: Span,
    pub args: Vec<ItemTy>,
    pub ret_ty: Box<ItemTy>,
}

#[derive(Debug)]
pub struct TyNamedFunc {
    pub span_func: Span,
    pub args: Vec<NameTyPair>,
    pub ret_ty: Box<ItemTy>,
}

#[derive(Debug)]
pub struct TyArray {
    pub span: Span,
    pub ty: Box<ItemTy>,
    pub size: Expr,
}

#[derive(Debug)]
pub struct TyPtr {
    pub span_ptr: Span,
    pub ty: Box<ItemTy>,
}

#[derive(Debug)]
pub struct TyNever(pub Span);

/// Type syntax: a reference to a named type, or a structural type.
#[derive(Debug)]
pub enum ItemTy {
    Referred(ExprPath),
    Struct(TyStruct),
    Enum(TyEnum),
    Tuple(TyTuple),
    Func(TyFunc),
    Array(TyArray),
    Pointer(TyPtr),
    Never(TyNever),
}

#[derive(Debug)]
pub struct ItemNamedType {
    pub ty: ItemTy,
    pub terminated: Option<Span>,
}

#[derive(Debug)]
pub struct ItemFunc {
    pub func: TyNamedFunc,
    pub body: ExprBlock,
}

#[derive(Debug)]
pub enum NamedKind {
    Type(ItemNamedType),
    Func(ItemFunc),
}

/// `name :: definition`.
#[derive(Debug)]
pub struct ItemNamed {
    pub name: Ident,
    pub kind: NamedKind,
}

#[derive(Debug)]
pub enum Item {
    Import(ItemImports),
    Definer(ItemNamed),
}

/// The items of one source module, in order.
#[derive(Debug)]
pub struct ParsedModule {
    pub items: Vec<Item>,
}

/// An integer literal: the spans of its sign, digits, suffix and base prefix.
#[derive(Clone, Copy, Debug, PartialEq, Eq, Structural)]
pub struct Number {
    pub sign: Option<Span>,
    pub number: Span,
    pub suffix: Option<Span>,
    pub base: Option<Span>,
}

#[derive(Debug)]
pub struct ExprTuple {
    pub span: Span,
    pub values: Vec<Expr>,
}

#[derive(Debug)]
pub struct ExprArray {
    pub span: Span,
    pub values: Vec<Expr>,
}

#[derive(Debug)]
pub struct ExprObject {
    pub span: Span,
    pub values: Vec<(Ident, Expr)>,
}

/// `Path { field = value, ... }`.
#[derive(Debug)]
pub struct ExprCtor {
    pub ty_path: ExprPath,
    pub vals: ExprObject,
}

#[derive(Debug)]
pub struct ExprCall {
    pub base: Box<Expr>,
    pub args: ExprTuple,
}

#[derive(Debug)]
pub struct Statement {
    pub expr: Expr,
    pub sim: Span,
}

/// Whether a block stands inline in an expression or is a braced body.
#[derive(Clone, Copy, Debug, PartialEq, Eq, Structural)]
pub enum BlockKind {
    Inline,
    Braced,
}

#[derive(Debug)]
pub struct ExprBlock {
    pub span: Span,
    pub kind: BlockKind,
    pub stmts: Vec<Statement>,
    pub returning: Option<Box<Expr>>,
}

#[derive(Debug)]
pub enum Expr {
    Tuple(ExprTuple),
    Array(ExprArray),
    Path(ExprPath),
    Ctor(ExprCtor),
    Block(ExprBlock),
    Number(Box<Number>),
    String(Span, String),
    Ident(Ident),
    Call(ExprCall),
}

impl Expr {
    /// Whether a statement made of this expression must end with `;`:
    /// every expression but a braced block must.
    pub open spec fn spec_needs_termination(&self) -> bool {
        match self {
            Expr::Block(b) => b.kind == BlockKind::Inline,
            _ => true,
        }
    }

    pub fn needs_termination(&self) -> (r: bool)
        ensures
            r == self.spec_needs_termination(),
    {
        match self {
            Expr::Tuple(_) | Expr::Array(_) | Expr::Path(_) | Expr::Ctor(_) | Expr::Number(_)
            | Expr::String(_, _) | Expr::Ident(_) | Expr::Call(_) => true,
            Expr::Block(body) => match body.kind {
                BlockKind::Inline => true,
                BlockKind::Braced => false,
            },
        }
    }
}

} // verus!
