//! Evaluating a reordered named call's arguments in the order they were written.
//!
//! Binding permutes the arguments into the callee's declaration order, which is also
//! the order every later stage evaluates them in. When two arguments that carry effects
//! would swap, the call is rewritten into a block that binds each argument to a
//! temporary in source order and then passes the temporaries in declaration order.

use vstd::prelude::*;
use vstd::string::*;

use super::ast::{Expr, Identifier, Stmt, Type};
use super::errors::Span;
use super::signatures::Signature;
use crate::text::{decimal, decimal_digits};

verus! {

/// The prefix of a hoisted argument temporary; `__` is reserved for generated names.
pub const TEMP_PREFIX: &'static str = "__narg";

/// Whether an expression can neither cause an effect nor observe one: a literal or a
/// path, possibly parenthesized or cast.
pub open spec fn is_inert(expr: Expr) -> bool
    decreases expr,
{
    match expr {
        Expr::Literal(..) => true,
        Expr::Path { .. } => true,
        Expr::Paren(inner, _) => is_inert(*inner),
        Expr::Cast { expr: inner, .. } => is_inert(*inner),
        _ => false,
    }
}

/// Whether an expression denotes a place: a variable, or a projection out of one.
pub open spec fn is_place(expr: Expr) -> bool
    decreases expr,
{
    match expr {
        Expr::Identifier(_) => true,
        Expr::Paren(inner, _) => is_place(*inner),
        Expr::FieldAccess { object, .. } => is_place(*object),
        Expr::TupleIndex { object, .. } => is_place(*object),
        Expr::Index { object, .. } => is_place(*object),
        Expr::Deref { operand, .. } => is_place(*operand),
        _ => false,
    }
}

/// Whether a call's callee stays put while its arguments are hoisted ahead of it: a
/// named function, or a method whose receiver is a place.
pub open spec fn callee_allows_hoisting(func: Expr) -> bool {
    match func {
        Expr::Identifier(_) => true,
        Expr::Path { .. } => true,
        Expr::FieldAccess { object, .. } => is_place(*object),
        _ => false,
    }
}

/// Whether `expr` can neither cause an effect nor observe one.
pub fn inert(expr: &Expr) -> (result: bool)
    ensures
        result == is_inert(*expr),
    decreases expr,
{
    match expr {
        Expr::Literal(..) => true,
        Expr::Path { .. } => true,
        Expr::Paren(inner, _) => inert(inner),
        Expr::Cast { expr: inner, .. } => inert(inner),
        _ => false,
    }
}

/// Whether `expr` denotes a place.
pub fn place(expr: &Expr) -> (result: bool)
    ensures
        result == is_place(*expr),
    decreases expr,
{
    match expr {
        Expr::Identifier(_) => true,
        Expr::Paren(inner, _) => place(inner),
        Expr::FieldAccess { object, .. } => place(object),
        Expr::TupleIndex { object, .. } => place(object),
        Expr::Index { object, .. } => place(object),
        Expr::Deref { operand, .. } => place(operand),
        _ => false,
    }
}

/// Whether a call through `func` may have its arguments hoisted ahead of it.
pub fn allows_hoisting(func: &Expr) -> (result: bool)
    ensures
        result == callee_allows_hoisting(*func),
{
    match func {
        Expr::Identifier(_) => true,
        Expr::Path { .. } => true,
        Expr::FieldAccess { object, .. } => place(object),
        _ => false,
    }
}

/// Whether the argument written at `i` carries an effect.
pub open spec fn observable(args: Seq<Expr>) -> spec_fn(usize) -> bool {
    |i: usize| i < args.len() && !is_inert(args[i as int])
}

/// Whether evaluating `args` in the declaration order `order` (`order[slot]` = source
/// index) would run two effect-carrying arguments in a different order than written.
pub open spec fn reorders_effects_spec(order: Seq<usize>, args: Seq<Expr>) -> bool {
    let effects = order.filter(observable(args));
    exists|p: int| 0 <= p < effects.len() - 1 && #[trigger] effects[p] > effects[p + 1]
}

/// Whether binding `args` in `order` would reorder two of their effects.
pub fn reorders_effects(order: &Vec<usize>, args: &Vec<Expr>) -> (result: bool)
    ensures
        result == reorders_effects_spec(order@, args@),
{
    let mut effects: Vec<usize> = Vec::new();
    let mut i: usize = 0;
    while i < order.len()
        invariant
            i <= order@.len(),
            effects@ == order@.subrange(0, i as int).filter(observable(args@)),
        decreases order@.len() - i,
    {
        proof {
            reveal_with_fuel(Seq::<_>::filter, 1);
            assert(order@.subrange(0, i + 1).drop_last() =~= order@.subrange(0, i as int));
        }
        let source = order[i];
        if source < args.len() && !inert(&args[source]) {
            effects.push(source);
        }
        i = i + 1;
    }
    assert(order@.subrange(0, order@.len() as int) =~= order@);
    let mut p: usize = 0;
    while effects.len() > 0 && p < effects.len() - 1
        invariant
            effects@ == order@.filter(observable(args@)),
            forall|q: int| 0 <= q < p ==> !(#[trigger] effects@[q] > effects@[q + 1]),
        decreases effects@.len() - p,
    {
        if effects[p] > effects[p + 1] {
            return true;
        }
        p = p + 1;
    }
    false
}

/// The name of the temporary holding the argument written at `source`.
pub open spec fn temp_name_text(source: nat) -> Seq<char> {
    TEMP_PREFIX@ + decimal_digits(source)
}

/// The temporary holding the argument written at `source`: `__narg<source>`.
pub fn temp_name(source: usize, span: Span) -> (ident: Identifier)
    ensures
        ident.name@ == temp_name_text(source as nat),
        ident.span == span,
{
    let mut name = String::from_str(TEMP_PREFIX);
    name.append(decimal(source as u64).as_str());
    Identifier { name, span }
}

/// The annotation the temporary for declaration slot `slot` carries: the parameter's.
pub fn annotation(sig: &Signature, slot: usize) -> (ty: Option<Type>)
    ensures
        ty == if slot < sig.params@.len() {
            sig.params@[slot as int].ty
        } else {
            None
        },
{
    if slot < sig.params.len() {
        match &sig.params[slot].ty {
            Some(t) => Some(t.duplicate()),
            None => None,
        }
    } else {
        None
    }
}

} // verus!
