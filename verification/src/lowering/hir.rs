//! The typed program lowering produces, as far as rewriting a `.backward()` reads and
//! builds it: every expression carries its resolved type and its span.
//!
//! Lists inside the tree are linked through boxes, so a copy of a tree has the same
//! view, and the view is built by structural recursion.

use vstd::prelude::*;

use crate::arguments::errors::Span;

verus! {

/// A resolved type.
#[derive(Debug)]
pub enum HirType {
    /// A type lowering carries through without looking inside, by its written form.
    Named(String),
    Void,
    I64,
    /// A tensor of the given element type.
    Tensor { element: Box<HirType> },
    Reference { inner: Box<HirType>, mutable: bool },
    Struct(String),
    Array { element: Box<HirType>, size: usize },
    Tuple(HirTypes),
    Function { params: HirTypes, ret: Box<HirType> },
}

/// A list of types.
#[derive(Debug)]
pub enum HirTypes {
    End,
    Link(Box<HirType>, Box<HirTypes>),
}

/// Names with their types: a closure's captures in layout order, or a struct's fields
/// in declaration order.
#[derive(Debug)]
pub enum HirBindings {
    End,
    Link(String, Box<HirType>, Box<HirBindings>),
}

/// A typed expression.
#[derive(Debug)]
pub struct HirExpr {
    pub kind: HirExprKind,
    pub ty: HirType,
    pub span: Span,
}

/// The forms of a typed expression.
#[derive(Debug)]
pub enum HirExprKind {
    Variable(String),
    Integer(i128),
    FieldAccess { object: Box<HirExpr>, field: String },
    TupleIndex { object: Box<HirExpr>, index: usize },
    Index { object: Box<HirExpr>, index: Box<HirExpr> },
    Call { callee: Box<HirExpr>, args: HirExprs },
    /// A lifted closure, by the name of its function, with its captures.
    Closure { name: String, captures: HirBindings },
    /// Any other form, by its name, with its subexpressions in evaluation order.
    Other { form: String, parts: HirExprs },
}

/// A list of expressions.
#[derive(Debug)]
pub enum HirExprs {
    End,
    Link(Box<HirExpr>, Box<HirExprs>),
}

/// A typed statement.
#[derive(Debug)]
pub enum HirStmt {
    VarDecl { name: String, ty: HirType, init: Option<HirExpr>, mutable: bool, span: Span },
    Expr(HirExpr),
    /// Any other statement, by its name, with its expressions in order.
    Other { form: String, parts: HirExprs, span: Span },
}

/// A [`HirType`] with its names as character sequences.
pub enum HirTypeView {
    Named(Seq<char>),
    Void,
    I64,
    Tensor { element: Box<HirTypeView> },
    Reference { inner: Box<HirTypeView>, mutable: bool },
    Struct(Seq<char>),
    Array { element: Box<HirTypeView>, size: usize },
    Tuple(Seq<HirTypeView>),
    Function { params: Seq<HirTypeView>, ret: Box<HirTypeView> },
}

/// The view of a type.
pub open spec fn type_view(t: HirType) -> HirTypeView
    decreases t,
{
    match t {
        HirType::Named(n) => HirTypeView::Named(n@),
        HirType::Void => HirTypeView::Void,
        HirType::I64 => HirTypeView::I64,
        HirType::Tensor { element } => HirTypeView::Tensor { element: Box::new(type_view(*element)) },
        HirType::Reference { inner, mutable } => HirTypeView::Reference {
            inner: Box::new(type_view(*inner)),
            mutable,
        },
        HirType::Struct(n) => HirTypeView::Struct(n@),
        HirType::Array { element, size } => HirTypeView::Array { element: Box::new(type_view(*element)), size },
        HirType::Tuple(ts) => HirTypeView::Tuple(types_view(ts)),
        HirType::Function { params, ret } => HirTypeView::Function {
            params: types_view(params),
            ret: Box::new(type_view(*ret)),
        },
    }
}

/// The view of a list of types.
pub open spec fn types_view(ts: HirTypes) -> Seq<HirTypeView>
    decreases ts,
{
    match ts {
        HirTypes::End => Seq::empty(),
        HirTypes::Link(t, rest) => seq![type_view(*t)] + types_view(*rest),
    }
}

/// The view of a list of bindings.
pub open spec fn bindings_view(bs: HirBindings) -> Seq<(Seq<char>, HirTypeView)>
    decreases bs,
{
    match bs {
        HirBindings::End => Seq::empty(),
        HirBindings::Link(n, t, rest) => seq![(n@, type_view(*t))] + bindings_view(*rest),
    }
}

impl View for HirType {
    type V = HirTypeView;

    open spec fn view(&self) -> HirTypeView {
        type_view(*self)
    }
}

impl View for HirTypes {
    type V = Seq<HirTypeView>;

    open spec fn view(&self) -> Seq<HirTypeView> {
        types_view(*self)
    }
}

impl View for HirBindings {
    type V = Seq<(Seq<char>, HirTypeView)>;

    open spec fn view(&self) -> Seq<(Seq<char>, HirTypeView)> {
        bindings_view(*self)
    }
}

/// A [`HirExpr`] with its names as character sequences.
pub struct HirExprView {
    pub kind: HirExprKindView,
    pub ty: HirTypeView,
    pub span: Span,
}

/// A [`HirExprKind`] with its names as character sequences.
pub enum HirExprKindView {
    Variable(Seq<char>),
    Integer(i128),
    FieldAccess { object: Box<HirExprView>, field: Seq<char> },
    TupleIndex { object: Box<HirExprView>, index: usize },
    Index { object: Box<HirExprView>, index: Box<HirExprView> },
    Call { callee: Box<HirExprView>, args: Seq<HirExprView> },
    Closure { name: Seq<char>, captures: Seq<(Seq<char>, HirTypeView)> },
    Other { form: Seq<char>, parts: Seq<HirExprView> },
}

/// A [`HirStmt`] with its names as character sequences.
pub enum HirStmtView {
    VarDecl { name: Seq<char>, ty: HirTypeView, init: Option<HirExprView>, mutable: bool, span: Span },
    Expr(HirExprView),
    Other { form: Seq<char>, parts: Seq<HirExprView>, span: Span },
}

/// The view of an expression.
pub open spec fn expr_view(e: HirExpr) -> HirExprView
    decreases e,
{
    HirExprView { kind: kind_view(e.kind), ty: type_view(e.ty), span: e.span }
}

/// The view of an expression's form.
pub open spec fn kind_view(k: HirExprKind) -> HirExprKindView
    decreases k,
{
    match k {
        HirExprKind::Variable(n) => HirExprKindView::Variable(n@),
        HirExprKind::Integer(v) => HirExprKindView::Integer(v),
        HirExprKind::FieldAccess { object, field } => HirExprKindView::FieldAccess {
            object: Box::new(expr_view(*object)),
            field: field@,
        },
        HirExprKind::TupleIndex { object, index } => HirExprKindView::TupleIndex {
            object: Box::new(expr_view(*object)),
            index,
        },
        HirExprKind::Index { object, index } => HirExprKindView::Index {
            object: Box::new(expr_view(*object)),
            index: Box::new(expr_view(*index)),
        },
        HirExprKind::Call { callee, args } => HirExprKindView::Call {
            callee: Box::new(expr_view(*callee)),
            args: exprs_view(args),
        },
        HirExprKind::Closure { name, captures } => HirExprKindView::Closure {
            name: name@,
            captures: bindings_view(captures),
        },
        HirExprKind::Other { form, parts } => HirExprKindView::Other { form: form@, parts: exprs_view(parts) },
    }
}

/// The view of a list of expressions.
pub open spec fn exprs_view(es: HirExprs) -> Seq<HirExprView>
    decreases es,
{
    match es {
        HirExprs::End => Seq::empty(),
        HirExprs::Link(e, rest) => seq![expr_view(*e)] + exprs_view(*rest),
    }
}

/// The view of a statement.
pub open spec fn stmt_view(s: HirStmt) -> HirStmtView {
    match s {
        HirStmt::VarDecl { name, ty, init, mutable, span } => HirStmtView::VarDecl {
            name: name@,
            ty: type_view(ty),
            init: match init {
                Some(e) => Some(expr_view(e)),
                None => None,
            },
            mutable,
            span,
        },
        HirStmt::Expr(e) => HirStmtView::Expr(expr_view(e)),
        HirStmt::Other { form, parts, span } => HirStmtView::Other { form: form@, parts: exprs_view(parts), span },
    }
}

/// The view of a block of statements.
pub open spec fn stmts_view(ss: Seq<HirStmt>) -> Seq<HirStmtView> {
    ss.map_values(|s: HirStmt| stmt_view(s))
}

impl View for HirExpr {
    type V = HirExprView;

    open spec fn view(&self) -> HirExprView {
        expr_view(*self)
    }
}

impl View for HirExprs {
    type V = Seq<HirExprView>;

    open spec fn view(&self) -> Seq<HirExprView> {
        exprs_view(*self)
    }
}

impl View for HirStmt {
    type V = HirStmtView;

    open spec fn view(&self) -> HirStmtView {
        stmt_view(*self)
    }
}

/// The type a reference refers to; any other type is its own referent.
pub open spec fn referent(t: HirTypeView) -> HirTypeView {
    match t {
        HirTypeView::Reference { inner, .. } => *inner,
        _ => t,
    }
}

impl HirType {
    /// A copy of this type.
    pub fn duplicate(&self) -> (copy: HirType)
        ensures
            copy@ == self@,
        decreases self,
    {
        match self {
            HirType::Named(n) => HirType::Named(n.clone()),
            HirType::Void => HirType::Void,
            HirType::I64 => HirType::I64,
            HirType::Tensor { element } => HirType::Tensor { element: Box::new(element.duplicate()) },
            HirType::Reference { inner, mutable } => HirType::Reference {
                inner: Box::new(inner.duplicate()),
                mutable: *mutable,
            },
            HirType::Struct(n) => HirType::Struct(n.clone()),
            HirType::Array { element, size } => HirType::Array {
                element: Box::new(element.duplicate()),
                size: *size,
            },
            HirType::Tuple(ts) => HirType::Tuple(ts.duplicate()),
            HirType::Function { params, ret } => HirType::Function {
                params: params.duplicate(),
                ret: Box::new(ret.duplicate()),
            },
        }
    }

    /// The type a reference refers to; any other type is its own referent.
    pub fn referent(&self) -> (r: &HirType)
        ensures
            r@ == referent(self@),
    {
        match self {
            HirType::Reference { inner, .. } => inner,
            _ => self,
        }
    }

    /// Whether this type is the same as `other`.
    pub fn same(&self, other: &HirType) -> (same: bool)
        ensures
            same == (self@ == other@),
        decreases self,
    {
        match (self, other) {
            (HirType::Named(a), HirType::Named(b)) => *a == *b,
            (HirType::Void, HirType::Void) => true,
            (HirType::I64, HirType::I64) => true,
            (HirType::Tensor { element: a }, HirType::Tensor { element: b }) => a.same(b),
            (HirType::Reference { inner: a, mutable: ma }, HirType::Reference { inner: b, mutable: mb }) => {
                *ma == *mb && a.same(b)
            },
            (HirType::Struct(a), HirType::Struct(b)) => *a == *b,
            (HirType::Array { element: a, size: sa }, HirType::Array { element: b, size: sb }) => {
                *sa == *sb && a.same(b)
            },
            (HirType::Tuple(a), HirType::Tuple(b)) => a.same(b),
            (HirType::Function { params: pa, ret: ra }, HirType::Function { params: pb, ret: rb }) => {
                pa.same(pb) && ra.same(rb)
            },
            _ => false,
        }
    }
}

impl HirTypes {
    /// A copy of this list.
    pub fn duplicate(&self) -> (copy: HirTypes)
        ensures
            copy@ == self@,
        decreases self,
    {
        match self {
            HirTypes::End => HirTypes::End,
            HirTypes::Link(t, rest) => HirTypes::Link(Box::new(t.duplicate()), Box::new(rest.duplicate())),
        }
    }

    /// Whether this list is the same as `other`.
    pub fn same(&self, other: &HirTypes) -> (same: bool)
        ensures
            same == (self@ == other@),
        decreases self,
    {
        match (self, other) {
            (HirTypes::End, HirTypes::End) => true,
            (HirTypes::Link(a, ra), HirTypes::Link(b, rb)) => {
                let heads = a.same(b);
                let tails = ra.same(rb);
                proof {
                    if self@ == other@ {
                        assert(self@[0] == other@[0]);
                        assert(ra@ =~= self@.subrange(1, self@.len() as int));
                        assert(rb@ =~= other@.subrange(1, other@.len() as int));
                    }
                    if heads && tails {
                        assert(self@ =~= other@);
                    }
                }
                heads && tails
            },
            (HirTypes::End, HirTypes::Link(..)) => {
                assert(other@.len() > 0);
                false
            },
            (HirTypes::Link(..), HirTypes::End) => {
                assert(self@.len() > 0);
                false
            },
        }
    }

    /// This list, then `more`.
    pub fn concat(self, more: HirTypes) -> (all: HirTypes)
        ensures
            all@ == self@ + more@,
        decreases self,
    {
        match self {
            HirTypes::End => {
                assert(Seq::<HirTypeView>::empty() + more@ =~= more@);
                more
            },
            HirTypes::Link(t, rest) => {
                let tail = rest.concat(more);
                let ghost h = type_view(*t);
                let all = HirTypes::Link(t, Box::new(tail));
                assert(all@ =~= seq![h] + tail@);
                assert(seq![h] + (rest@ + more@) =~= (seq![h] + rest@) + more@);
                all
            },
        }
    }
}

impl HirBindings {
    /// A copy of this list.
    pub fn duplicate(&self) -> (copy: HirBindings)
        ensures
            copy@ == self@,
        decreases self,
    {
        match self {
            HirBindings::End => HirBindings::End,
            HirBindings::Link(n, t, rest) => HirBindings::Link(
                n.clone(),
                Box::new(t.duplicate()),
                Box::new(rest.duplicate()),
            ),
        }
    }

    /// Whether this list is the same as `other`.
    pub fn same(&self, other: &HirBindings) -> (same: bool)
        ensures
            same == (self@ == other@),
        decreases self,
    {
        match (self, other) {
            (HirBindings::End, HirBindings::End) => true,
            (HirBindings::Link(na, a, ra), HirBindings::Link(nb, b, rb)) => {
                let heads = *na == *nb && a.same(b);
                let tails = ra.same(rb);
                proof {
                    if self@ == other@ {
                        assert(self@[0] == other@[0]);
                        assert(ra@ =~= self@.subrange(1, self@.len() as int));
                        assert(rb@ =~= other@.subrange(1, other@.len() as int));
                    }
                    if heads && tails {
                        assert(self@ =~= other@);
                    }
                }
                heads && tails
            },
            (HirBindings::End, HirBindings::Link(..)) => {
                assert(other@.len() > 0);
                false
            },
            (HirBindings::Link(..), HirBindings::End) => {
                assert(self@.len() > 0);
                false
            },
        }
    }

    /// Whether the list is empty.
    pub fn is_empty(&self) -> (empty: bool)
        ensures
            empty == (self@.len() == 0),
    {
        match self {
            HirBindings::End => true,
            HirBindings::Link(..) => false,
        }
    }
}

impl HirExpr {
    /// A copy of this expression.
    pub fn duplicate(&self) -> (copy: HirExpr)
        ensures
            copy@ == self@,
        decreases self,
    {
        let kind = match &self.kind {
            HirExprKind::Variable(n) => HirExprKind::Variable(n.clone()),
            HirExprKind::Integer(v) => HirExprKind::Integer(*v),
            HirExprKind::FieldAccess { object, field } => HirExprKind::FieldAccess {
                object: Box::new(object.duplicate()),
                field: field.clone(),
            },
            HirExprKind::TupleIndex { object, index } => HirExprKind::TupleIndex {
                object: Box::new(object.duplicate()),
                index: *index,
            },
            HirExprKind::Index { object, index } => HirExprKind::Index {
                object: Box::new(object.duplicate()),
                index: Box::new(index.duplicate()),
            },
            HirExprKind::Call { callee, args } => HirExprKind::Call {
                callee: Box::new(callee.duplicate()),
                args: args.duplicate(),
            },
            HirExprKind::Closure { name, captures } => HirExprKind::Closure {
                name: name.clone(),
                captures: captures.duplicate(),
            },
            HirExprKind::Other { form, parts } => HirExprKind::Other { form: form.clone(), parts: parts.duplicate() },
        };
        HirExpr { kind, ty: self.ty.duplicate(), span: self.span }
    }
}

impl HirExprs {
    /// A copy of this list.
    pub fn duplicate(&self) -> (copy: HirExprs)
        ensures
            copy@ == self@,
        decreases self,
    {
        match self {
            HirExprs::End => HirExprs::End,
            HirExprs::Link(e, rest) => HirExprs::Link(Box::new(e.duplicate()), Box::new(rest.duplicate())),
        }
    }

    /// This list, then `more`.
    pub fn concat(self, more: HirExprs) -> (all: HirExprs)
        ensures
            all@ == self@ + more@,
        decreases self,
    {
        match self {
            HirExprs::End => {
                assert(Seq::<HirExprView>::empty() + more@ =~= more@);
                more
            },
            HirExprs::Link(e, rest) => {
                let tail = rest.concat(more);
                let ghost h = expr_view(*e);
                let all = HirExprs::Link(e, Box::new(tail));
                assert(all@ =~= seq![h] + tail@);
                assert(seq![h] + (rest@ + more@) =~= (seq![h] + rest@) + more@);
                all
            },
        }
    }
}

} // verus!
