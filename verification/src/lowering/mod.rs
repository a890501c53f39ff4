//! The pure reasoning of lowering a type-checked program: subscript and shape
//! arithmetic of the tensor intrinsics, the names generated for derivatives, and the
//! error every stage of lowering reports.

pub mod adjoint;
pub mod autodiff;
pub mod backward;
pub mod broadcast;
pub mod closures;
pub mod collections;
pub mod einsum;
pub mod hir;
pub mod index;
pub mod layout;
pub mod methods;
pub mod operators;
pub mod reduction;
pub mod selection;
pub mod shape;
pub mod tensors;

use vstd::prelude::*;
use vstd::string::*;

use crate::arguments::errors::Span;

verus! {

/// A failure encountered while lowering a type-checked program.
///
/// Every variant denotes a state the type checker should have already rejected;
/// lowering surfaces it as an error rather than panicking.
#[derive(Debug, Clone, PartialEq, Eq)]
pub enum LoweringError {
    /// A type annotation named a type that does not resolve.
    UnresolvedType { name: String },
    /// An identifier referenced no in-scope binding or constant.
    UnresolvedBinding { name: String },
    /// A method, builtin intrinsic, or associated function could not be resolved.
    UnresolvedCall { target: String },
    /// An expression appeared in a position the well-typed contract guarantees against.
    Malformed { detail: String },
    /// A `@grad` function uses, at `span`, a construct reverse mode cannot differentiate.
    NotDifferentiable { function: String, construct: String, span: Span },
}

/// A [`LoweringError`] with its texts as character sequences.
pub enum LoweringErrorView {
    UnresolvedType { name: Seq<char> },
    UnresolvedBinding { name: Seq<char> },
    UnresolvedCall { target: Seq<char> },
    Malformed { detail: Seq<char> },
    NotDifferentiable { function: Seq<char>, construct: Seq<char>, span: Span },
}

impl View for LoweringError {
    type V = LoweringErrorView;

    open spec fn view(&self) -> LoweringErrorView {
        match self {
            LoweringError::UnresolvedType { name } => LoweringErrorView::UnresolvedType { name: name@ },
            LoweringError::UnresolvedBinding { name } => LoweringErrorView::UnresolvedBinding {
                name: name@,
            },
            LoweringError::UnresolvedCall { target } => LoweringErrorView::UnresolvedCall {
                target: target@,
            },
            LoweringError::Malformed { detail } => LoweringErrorView::Malformed { detail: detail@ },
            LoweringError::NotDifferentiable { function, construct, span } => LoweringErrorView::NotDifferentiable {
                function: function@,
                construct: construct@,
                span: *span,
            },
        }
    }
}

/// The text of `a`, then `b`, then `c`.
pub fn concat3(a: &str, b: &str, c: &str) -> (s: String)
    ensures
        s@ == a@ + b@ + c@,
{
    let mut s = String::from_str(a);
    s.append(b);
    s.append(c);
    s
}

/// The message a lowering error is displayed with.
pub open spec fn message_of(e: LoweringErrorView) -> Seq<char> {
    match e {
        LoweringErrorView::UnresolvedType { name } => "cannot resolve type annotation '"@ + name
            + "' during lowering"@,
        LoweringErrorView::UnresolvedBinding { name } => "unresolved binding '"@ + name
            + "' during lowering"@,
        LoweringErrorView::UnresolvedCall { target } => "unresolved call target '"@ + target
            + "' during lowering"@,
        LoweringErrorView::Malformed { detail } => "malformed expression reached lowering: "@
            + detail,
        LoweringErrorView::NotDifferentiable { function, construct, .. } => "'"@ + function
            + "' cannot be differentiated: "@ + construct,
    }
}

impl LoweringError {
    /// The message this error is displayed with.
    pub fn message(&self) -> (text: String)
        ensures
            text@ == message_of(self@),
    {
        match self {
            LoweringError::UnresolvedType { name } => concat3(
                "cannot resolve type annotation '",
                name.as_str(),
                "' during lowering",
            ),
            LoweringError::UnresolvedBinding { name } => concat3(
                "unresolved binding '",
                name.as_str(),
                "' during lowering",
            ),
            LoweringError::UnresolvedCall { target } => concat3(
                "unresolved call target '",
                target.as_str(),
                "' during lowering",
            ),
            LoweringError::Malformed { detail } => {
                let mut text = String::from_str("malformed expression reached lowering: ");
                text.append(detail.as_str());
                text
            },
            LoweringError::NotDifferentiable { function, construct, .. } => {
                let mut text = concat3("'", function.as_str(), "' cannot be differentiated: ");
                text.append(construct.as_str());
                text
            },
        }
    }
}

/// The error for a state the checker should have refused, described by `detail`.
pub fn malformed(detail: String) -> (e: LoweringError)
    ensures
        e@ == (LoweringErrorView::Malformed { detail: detail@ }),
{
    LoweringError::Malformed { detail }
}

} // verus!
