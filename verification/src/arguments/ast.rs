//! The program as named-argument binding reads it: declarations with their parameters,
//! and expressions down to every call site.

use vstd::prelude::*;

use super::errors::Span;
use super::signatures::Parameter;

verus! {

/// A name as written, with where it was written.
#[derive(Debug, Clone, PartialEq)]
pub struct Identifier {
    pub name: String,
    pub span: Span,
}

/// A literal value as written.
#[derive(Debug, Clone, PartialEq)]
pub enum Literal {
    Integer(i128),
    Boolean(bool),
    Char(char),
    String(String),
    /// A floating-point literal, kept as its source text.
    Float(String),
}

/// A written type annotation.
#[derive(Debug, Clone, PartialEq)]
pub enum Type {
    /// A type written by name, `i32` or `Point`.
    Named(Identifier),
    /// A type written with structure (a reference, an array, a tuple...), as its text.
    Composite(String),
}

/// A [`Literal`] with its texts as character sequences.
pub enum LiteralView {
    Integer(i128),
    Boolean(bool),
    Char(char),
    String(Seq<char>),
    Float(Seq<char>),
}

impl View for Literal {
    type V = LiteralView;

    open spec fn view(&self) -> LiteralView {
        match self {
            Literal::Integer(v) => LiteralView::Integer(*v),
            Literal::Boolean(b) => LiteralView::Boolean(*b),
            Literal::Char(c) => LiteralView::Char(*c),
            Literal::String(t) => LiteralView::String(t@),
            Literal::Float(t) => LiteralView::Float(t@),
        }
    }
}

/// A [`Type`] with its texts as character sequences.
pub enum TypeView {
    Named { name: Seq<char>, span: Span },
    Composite(Seq<char>),
}

impl View for Type {
    type V = TypeView;

    open spec fn view(&self) -> TypeView {
        match self {
            Type::Named(id) => TypeView::Named { name: id.name@, span: id.span },
            Type::Composite(t) => TypeView::Composite(t@),
        }
    }
}

/// An expression. The forms that matter to binding (calls, callee shapes, places, and
/// what opens a scope) are kept apart; every other form is an `Other`, which keeps its
/// subexpressions in evaluation order (an `if` as its condition and its blocks, an
/// assignment as its place and value).
#[derive(Debug, PartialEq)]
pub enum Expr {
    Literal(Literal, Span),
    Identifier(Identifier),
    /// `Type::member`.
    Path { owner: Identifier, member: Identifier, span: Span },
    /// `object.field`.
    FieldAccess { object: Box<Expr>, field: Identifier, span: Span },
    /// `object.0`.
    TupleIndex { object: Box<Expr>, index: usize, span: Span },
    /// `object[index]`.
    Index { object: Box<Expr>, index: Box<Expr>, span: Span },
    /// `*operand`.
    Deref { operand: Box<Expr>, span: Span },
    /// `(inner)`.
    Paren(Box<Expr>, Span),
    /// `expr as T`.
    Cast { expr: Box<Expr>, target: Type, span: Span },
    /// `func(args...)`, each argument with its optional label; `arg_labels` is empty when
    /// every argument is positional.
    Call {
        func: Box<Expr>,
        type_args: Vec<Type>,
        args: Vec<Expr>,
        arg_labels: Vec<Option<Identifier>>,
        span: Span,
    },
    /// `{ stmts }`: a scope of its own.
    Block { stmts: Vec<Stmt>, span: Span },
    /// `|params| body`: the parameters are in scope in the body.
    Closure { params: Vec<Identifier>, body: Box<Expr>, span: Span },
    /// `match scrutinee { arms }`: each arm's pattern bindings are in scope in its guard
    /// and body.
    Match { scrutinee: Box<Expr>, arms: Vec<MatchArm>, span: Span },
    /// Any other expression, by its subexpressions in evaluation order.
    Other { parts: Vec<Expr>, span: Span },
}

/// One arm of a `match`.
#[derive(Debug, PartialEq)]
pub struct MatchArm {
    /// The names the arm's patterns bind.
    pub bindings: Vec<Identifier>,
    pub guard: Option<Expr>,
    pub body: Expr,
}

/// A statement.
#[derive(Debug, PartialEq)]
pub enum Stmt {
    /// `val name: ty = init` (or a `const`): the name is in scope after the statement.
    VarDecl { name: Identifier, ty: Option<Type>, init: Option<Expr>, mutable: bool, span: Span },
    /// A `for` loop: the header (the range's ends or the iterable, then the adapters'
    /// callees) is evaluated where the loop stands; the body sees the loop's own names
    /// (its iterator, and its index where it has one).
    Loop { header: Vec<Expr>, bound: Vec<Identifier>, body: Vec<Stmt>, span: Span },
    /// `val pattern = value else { else_block }`: the else block runs in a scope of its
    /// own that sees `else_binding`; the pattern's names are in scope after the statement.
    ValElse {
        value: Expr,
        else_binding: Option<Identifier>,
        else_block: Vec<Stmt>,
        pattern: Vec<Identifier>,
        span: Span,
    },
    /// An expression statement.
    Expr(Expr),
}

/// A method of an `impl` or a `trait`.
#[derive(Debug, PartialEq)]
pub struct MethodDef {
    pub name: Identifier,
    /// Whether the method takes `self`: an instance method rather than an associated
    /// function.
    pub has_self: bool,
    pub params: Vec<Parameter>,
    /// The body; a trait method without a default has none.
    pub body: Option<Vec<Stmt>>,
}

/// A top-level declaration.
#[derive(Debug, PartialEq)]
pub enum Item {
    /// A function, with the predicates of its `where` clause.
    Function { name: Identifier, params: Vec<Parameter>, where_predicates: Vec<Expr>, body: Vec<Stmt> },
    /// A struct: what binding reads of it is the predicates of its `where` clause.
    Struct { name: Identifier, where_predicates: Vec<Expr> },
    /// An `impl`, with the predicates of its `where` clause.
    Impl { owner: Identifier, where_predicates: Vec<Expr>, methods: Vec<MethodDef> },
    Trait { name: Identifier, methods: Vec<MethodDef> },
    Const { name: Identifier, value: Expr },
    Module { items: Vec<Item> },
    /// A declaration that holds no expression (a struct, an enum, an import...).
    Other,
}

impl Expr {
    /// Where the expression was written.
    pub fn span(&self) -> (span: Span)
        ensures
            span == self.spec_span(),
    {
        match self {
            Expr::Literal(_, span) => *span,
            Expr::Identifier(ident) => ident.span,
            Expr::Path { span, .. } => *span,
            Expr::FieldAccess { span, .. } => *span,
            Expr::TupleIndex { span, .. } => *span,
            Expr::Index { span, .. } => *span,
            Expr::Deref { span, .. } => *span,
            Expr::Paren(_, span) => *span,
            Expr::Cast { span, .. } => *span,
            Expr::Call { span, .. } => *span,
            Expr::Block { span, .. } => *span,
            Expr::Closure { span, .. } => *span,
            Expr::Match { span, .. } => *span,
            Expr::Other { span, .. } => *span,
        }
    }

    /// Where the expression was written.
    pub open spec fn spec_span(&self) -> Span {
        match self {
            Expr::Literal(_, span) => *span,
            Expr::Identifier(ident) => ident.span,
            Expr::Path { span, .. } => *span,
            Expr::FieldAccess { span, .. } => *span,
            Expr::TupleIndex { span, .. } => *span,
            Expr::Index { span, .. } => *span,
            Expr::Deref { span, .. } => *span,
            Expr::Paren(_, span) => *span,
            Expr::Cast { span, .. } => *span,
            Expr::Call { span, .. } => *span,
            Expr::Block { span, .. } => *span,
            Expr::Closure { span, .. } => *span,
            Expr::Match { span, .. } => *span,
            Expr::Other { span, .. } => *span,
        }
    }
}

impl Identifier {
    /// A copy of this identifier.
    pub fn duplicate(&self) -> (copy: Identifier)
        ensures
            copy == *self,
    {
        Identifier { name: self.name.clone(), span: self.span }
    }
}

impl Literal {
    /// A copy of this literal.
    pub fn duplicate(&self) -> (copy: Literal)
        ensures
            copy == *self,
    {
        match self {
            Literal::Integer(v) => Literal::Integer(*v),
            Literal::Boolean(b) => Literal::Boolean(*b),
            Literal::Char(c) => Literal::Char(*c),
            Literal::String(s) => Literal::String(s.clone()),
            Literal::Float(s) => Literal::Float(s.clone()),
        }
    }
}

impl Type {
    /// A copy of this type annotation.
    pub fn duplicate(&self) -> (copy: Type)
        ensures
            copy == *self,
    {
        match self {
            Type::Named(ident) => Type::Named(ident.duplicate()),
            Type::Composite(text) => Type::Composite(text.clone()),
        }
    }
}

/// A copy of an optional label.
pub fn duplicate_label(label: &Option<Identifier>) -> (copy: Option<Identifier>)
    ensures
        copy == *label,
{
    match label {
        Some(ident) => Some(ident.duplicate()),
        None => None,
    }
}

} // verus!
