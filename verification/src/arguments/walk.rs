//! One traversal reaching every call expression in a program, binding each.
//!
//! A call this walk misses would keep its labels, and the type checker after it would
//! then match arguments against parameters in the order they were written. So the walk
//! visits every expression position. It also keeps the local names in scope, because a
//! local may shadow a top-level function of the same name, and a call through that
//! local must not be checked against the function's signature.

use vstd::prelude::*;
use vstd::string::*;

use super::ast::{Expr, Identifier, Item, MatchArm, MethodDef, Stmt};
use super::calls::{
    arg_spans, arranged_argument, bind_call, bind_call_exact, bound_with, callee_lookup, callee_name, carries_effect,
    declares_temporary, defaults_of, effect_sources, first_label_spec, ident_label_views,
    is_hoisted_block, labels_well_formed, no_defaults, no_written_label,
    passes_source, plan_order, slot_annotation, slot_of, slots_outcome, Bound,
};
use super::binding::{binding_outcome, slots_view, BindingPlanView};
use super::errors::{ArgumentError, ArgumentErrorView};
use super::hoisting::is_inert;
use super::signatures::{has_required_label, LookupView, Parameter, Signature, SignatureTable, TableView};
use super::rewrites::{
    fills_defaults, is_default_literal, kept_labels, lemma_arranged_rewrites, lemma_temporaries_frame, rewrites_arms, rewrites_body, rewrites_call,
    rewrites_expr, rewrites_item, rewrites_items, rewrites_methods, rewrites_sources, rewrites_stmt,
    rewrites_stmts, rewrites_temporaries, same_block_shape, same_declaration,
};
use super::reports::{
    all_sources, bound_order, callee_params, continuation, own_error, plan_full, plan_sources, Continuation, bind_all, bind_into, body_names, callee_is_local, errs_arms, errs_body,
    errs_call, errs_expr, errs_item, errs_items, errs_methods, errs_sources, errs_stmt, errs_stmts,
    error_views, id_names, lemma_arranged_errs, lemma_scope_after_keeps_outer, lemma_visible,
    scope_after_stmt, scope_after_stmts, scopes_view,
};

verus! {

/// Whether every call in `e` satisfies `p`.
pub open spec fn every_call(e: Expr, p: spec_fn(Expr) -> bool) -> bool
    decreases e,
{
    match e {
        Expr::Literal(..) => true,
        Expr::Identifier(_) => true,
        Expr::Path { .. } => true,
        Expr::FieldAccess { object, .. } => every_call(*object, p),
        Expr::TupleIndex { object, .. } => every_call(*object, p),
        Expr::Index { object, index, .. } => every_call(*object, p) && every_call(*index, p),
        Expr::Deref { operand, .. } => every_call(*operand, p),
        Expr::Paren(inner, _) => every_call(*inner, p),
        Expr::Cast { expr, .. } => every_call(*expr, p),
        Expr::Call { func, args, .. } => p(e) && every_call(*func, p) && every_call_in(args@, p),
        Expr::Block { stmts, .. } => every_call_stmts(stmts@, p),
        Expr::Closure { body, .. } => every_call(*body, p),
        Expr::Match { scrutinee, arms, .. } => every_call(*scrutinee, p) && every_call_arms(arms@, p),
        Expr::Other { parts, .. } => every_call_in(parts@, p),
    }
}

/// Whether every call in the guard and body of arm `a` satisfies `p`.
pub open spec fn every_call_arm(a: MatchArm, p: spec_fn(Expr) -> bool) -> bool
    decreases a,
{
    (match a.guard {
        Some(g) => every_call(g, p),
        None => true,
    }) && every_call(a.body, p)
}

/// Whether every call in the arms `arms` satisfies `p`.
pub open spec fn every_call_arms(arms: Seq<MatchArm>, p: spec_fn(Expr) -> bool) -> bool
    decreases arms,
{
    if arms.len() == 0 {
        true
    } else {
        every_call_arms(arms.subrange(0, arms.len() - 1), p) && every_call_arm(arms[arms.len() - 1], p)
    }
}

/// Whether every call in each of `es` satisfies `p`.
pub open spec fn every_call_in(es: Seq<Expr>, p: spec_fn(Expr) -> bool) -> bool
    decreases es,
{
    if es.len() == 0 {
        true
    } else {
        every_call_in(es.subrange(0, es.len() - 1), p) && every_call(es[es.len() - 1], p)
    }
}

/// Whether every call in statement `s` satisfies `p`.
pub open spec fn every_call_stmt(s: Stmt, p: spec_fn(Expr) -> bool) -> bool
    decreases s,
{
    match s {
        Stmt::VarDecl { init, .. } => match init {
            Some(e) => every_call(e, p),
            None => true,
        },
        Stmt::Loop { header, body, .. } => every_call_in(header@, p) && every_call_stmts(body@, p),
        Stmt::ValElse { value, else_block, .. } => every_call(value, p) && every_call_stmts(
            else_block@,
            p,
        ),
        Stmt::Expr(e) => every_call(e, p),
    }
}

/// Whether every call in the statements `ss` satisfies `p`.
pub open spec fn every_call_stmts(ss: Seq<Stmt>, p: spec_fn(Expr) -> bool) -> bool
    decreases ss,
{
    if ss.len() == 0 {
        true
    } else {
        every_call_stmts(ss.subrange(0, ss.len() - 1), p) && every_call_stmt(ss[ss.len() - 1], p)
    }
}

/// Whether every call in the body of `m`, where it has one, satisfies `p`.
pub open spec fn every_call_method(m: MethodDef, p: spec_fn(Expr) -> bool) -> bool {
    match m.body {
        Some(body) => every_call_stmts(body@, p),
        None => true,
    }
}

/// Whether every call in the bodies of `ms` satisfies `p`.
pub open spec fn every_call_methods(ms: Seq<MethodDef>, p: spec_fn(Expr) -> bool) -> bool
    decreases ms,
{
    if ms.len() == 0 {
        true
    } else {
        every_call_methods(ms.subrange(0, ms.len() - 1), p) && every_call_method(ms[ms.len() - 1], p)
    }
}

/// Whether every call in declaration `item` satisfies `p`.
pub open spec fn every_call_item(item: Item, p: spec_fn(Expr) -> bool) -> bool
    decreases item,
{
    match item {
        Item::Function { where_predicates, body, .. } => every_call_in(where_predicates@, p) && every_call_stmts(
            body@,
            p,
        ),
        Item::Struct { where_predicates, .. } => every_call_in(where_predicates@, p),
        Item::Impl { where_predicates, methods, .. } => every_call_in(where_predicates@, p) && every_call_methods(
            methods@,
            p,
        ),
        Item::Trait { methods, .. } => every_call_methods(methods@, p),
        Item::Const { value, .. } => every_call(value, p),
        Item::Module { items } => every_call_items(items@, p),
        Item::Other => true,
    }
}

/// Whether every call in the declarations `items` satisfies `p`.
pub open spec fn every_call_items(items: Seq<Item>, p: spec_fn(Expr) -> bool) -> bool
    decreases items,
{
    if items.len() == 0 {
        true
    } else {
        every_call_items(items.subrange(0, items.len() - 1), p) && every_call_item(
            items[items.len() - 1],
            p,
        )
    }
}

/// Whether a call writes no label.
pub open spec fn unlabelled_call() -> spec_fn(Expr) -> bool {
    |c: Expr| no_written_label(c)
}

/// Whether a call's labels are absent or one per argument.
pub open spec fn well_labelled_call() -> spec_fn(Expr) -> bool {
    |c: Expr| labels_well_formed(c)
}

/// The number of expression and statement nodes in `e`: the walk's termination measure.
pub open spec fn size(e: Expr) -> nat
    decreases e,
{
    match e {
        Expr::Literal(..) => 1,
        Expr::Identifier(_) => 1,
        Expr::Path { .. } => 1,
        Expr::FieldAccess { object, .. } => 1 + size(*object),
        Expr::TupleIndex { object, .. } => 1 + size(*object),
        Expr::Index { object, index, .. } => 1 + size(*object) + size(*index),
        Expr::Deref { operand, .. } => 1 + size(*operand),
        Expr::Paren(inner, _) => 1 + size(*inner),
        Expr::Cast { expr, .. } => 1 + size(*expr),
        Expr::Call { func, args, .. } => 1 + size(*func) + size_in(args@),
        Expr::Block { stmts, .. } => 1 + size_stmts(stmts@),
        Expr::Closure { body, .. } => 1 + size(*body),
        Expr::Match { scrutinee, arms, .. } => 1 + size(*scrutinee) + size_arms(arms@),
        Expr::Other { parts, .. } => 1 + size_in(parts@),
    }
}

/// The size of arm `a`.
pub open spec fn size_arm(a: MatchArm) -> nat
    decreases a,
{
    1 + size(a.body) + match a.guard {
        Some(g) => size(g),
        None => 0,
    }
}

/// The total size of `arms`.
pub open spec fn size_arms(arms: Seq<MatchArm>) -> nat
    decreases arms,
{
    if arms.len() == 0 {
        0
    } else {
        size_arms(arms.subrange(0, arms.len() - 1)) + size_arm(arms[arms.len() - 1])
    }
}

/// The total size of `es`.
pub open spec fn size_in(es: Seq<Expr>) -> nat
    decreases es,
{
    if es.len() == 0 {
        0
    } else {
        size_in(es.subrange(0, es.len() - 1)) + size(es[es.len() - 1])
    }
}

/// The size of statement `s`.
pub open spec fn size_stmt(s: Stmt) -> nat
    decreases s,
{
    match s {
        Stmt::VarDecl { init, .. } => match init {
            Some(e) => 1 + size(e),
            None => 1,
        },
        Stmt::Loop { header, body, .. } => 1 + size_in(header@) + size_stmts(body@),
        Stmt::ValElse { value, else_block, .. } => 1 + size(value) + size_stmts(else_block@),
        Stmt::Expr(e) => 1 + size(e),
    }
}

/// The total size of `ss`.
pub open spec fn size_stmts(ss: Seq<Stmt>) -> nat
    decreases ss,
{
    if ss.len() == 0 {
        0
    } else {
        size_stmts(ss.subrange(0, ss.len() - 1)) + size_stmt(ss[ss.len() - 1])
    }
}

/// Each expression of a sequence is no larger than the sequence.
pub proof fn lemma_size_in(es: Seq<Expr>, i: int)
    requires
        0 <= i < es.len(),
    ensures
        size(es[i]) <= size_in(es),
    decreases es.len(),
{
    if i < es.len() - 1 {
        lemma_size_in(es.subrange(0, es.len() - 1), i);
        assert(es.subrange(0, es.len() - 1)[i] == es[i]);
    }
}

/// Each arm of a sequence is no larger than the sequence.
pub proof fn lemma_size_arms(arms: Seq<MatchArm>, i: int)
    requires
        0 <= i < arms.len(),
    ensures
        size_arm(arms[i]) <= size_arms(arms),
    decreases arms.len(),
{
    if i < arms.len() - 1 {
        lemma_size_arms(arms.subrange(0, arms.len() - 1), i);
        assert(arms.subrange(0, arms.len() - 1)[i] == arms[i]);
    }
}

/// `every_call_arms` holds exactly when it holds of each arm.
proof fn lemma_every_call_arms(arms: Seq<MatchArm>, p: spec_fn(Expr) -> bool)
    ensures
        every_call_arms(arms, p) <==> forall|i: int| 0 <= i < arms.len() ==> every_call_arm(#[trigger] arms[i], p),
    decreases arms.len(),
{
    if arms.len() > 0 {
        let prefix = arms.subrange(0, arms.len() - 1);
        lemma_every_call_arms(prefix, p);
        if forall|i: int| 0 <= i < arms.len() ==> every_call_arm(#[trigger] arms[i], p) {
            assert forall|i: int| 0 <= i < prefix.len() implies every_call_arm(#[trigger] prefix[i], p) by {
                assert(prefix[i] == arms[i]);
            }
        }
        if every_call_arms(arms, p) {
            assert forall|i: int| 0 <= i < arms.len() implies every_call_arm(#[trigger] arms[i], p) by {
                if i < arms.len() - 1 {
                    assert(prefix[i] == arms[i]);
                }
            }
        }
    }
}

/// Each statement of a sequence is no larger than the sequence.
pub proof fn lemma_size_stmts(ss: Seq<Stmt>, i: int)
    requires
        0 <= i < ss.len(),
    ensures
        size_stmt(ss[i]) <= size_stmts(ss),
    decreases ss.len(),
{
    if i < ss.len() - 1 {
        lemma_size_stmts(ss.subrange(0, ss.len() - 1), i);
        assert(ss.subrange(0, ss.len() - 1)[i] == ss[i]);
    }
}

/// `every_call_in` holds exactly when it holds of each expression.
proof fn lemma_every_call_in(es: Seq<Expr>, p: spec_fn(Expr) -> bool)
    ensures
        every_call_in(es, p) <==> forall|i: int| 0 <= i < es.len() ==> every_call(#[trigger] es[i], p),
    decreases es.len(),
{
    if es.len() > 0 {
        let prefix = es.subrange(0, es.len() - 1);
        lemma_every_call_in(prefix, p);
        if forall|i: int| 0 <= i < es.len() ==> every_call(#[trigger] es[i], p) {
            assert forall|i: int| 0 <= i < prefix.len() implies every_call(#[trigger] prefix[i], p) by {
                assert(prefix[i] == es[i]);
            }
        }
        if every_call_in(es, p) {
            assert forall|i: int| 0 <= i < es.len() implies every_call(#[trigger] es[i], p) by {
                if i < es.len() - 1 {
                    assert(prefix[i] == es[i]);
                }
            }
        }
    }
}

/// `every_call_stmts` holds exactly when it holds of each statement.
proof fn lemma_every_call_stmts(ss: Seq<Stmt>, p: spec_fn(Expr) -> bool)
    ensures
        every_call_stmts(ss, p) <==> forall|i: int| 0 <= i < ss.len() ==> every_call_stmt(#[trigger] ss[i], p),
    decreases ss.len(),
{
    if ss.len() > 0 {
        let prefix = ss.subrange(0, ss.len() - 1);
        lemma_every_call_stmts(prefix, p);
        if forall|i: int| 0 <= i < ss.len() ==> every_call_stmt(#[trigger] ss[i], p) {
            assert forall|i: int| 0 <= i < prefix.len() implies every_call_stmt(#[trigger] prefix[i], p) by {
                assert(prefix[i] == ss[i]);
            }
        }
        if every_call_stmts(ss, p) {
            assert forall|i: int| 0 <= i < ss.len() implies every_call_stmt(#[trigger] ss[i], p) by {
                if i < ss.len() - 1 {
                    assert(prefix[i] == ss[i]);
                }
            }
        }
    }
}

/// `every_call_methods` holds exactly when it holds of each method.
proof fn lemma_every_call_methods(ms: Seq<MethodDef>, p: spec_fn(Expr) -> bool)
    ensures
        every_call_methods(ms, p) <==> forall|i: int| 0 <= i < ms.len() ==> every_call_method(#[trigger] ms[i], p),
    decreases ms.len(),
{
    if ms.len() > 0 {
        let prefix = ms.subrange(0, ms.len() - 1);
        lemma_every_call_methods(prefix, p);
        if forall|i: int| 0 <= i < ms.len() ==> every_call_method(#[trigger] ms[i], p) {
            assert forall|i: int| 0 <= i < prefix.len() implies every_call_method(#[trigger] prefix[i], p) by {
                assert(prefix[i] == ms[i]);
            }
        }
        if every_call_methods(ms, p) {
            assert forall|i: int| 0 <= i < ms.len() implies every_call_method(#[trigger] ms[i], p) by {
                if i < ms.len() - 1 {
                    assert(prefix[i] == ms[i]);
                }
            }
        }
    }
}

/// `every_call_items` holds exactly when it holds of each declaration.
proof fn lemma_every_call_items(items: Seq<Item>, p: spec_fn(Expr) -> bool)
    ensures
        every_call_items(items, p) <==> forall|i: int| 0 <= i < items.len() ==> every_call_item(#[trigger] items[i], p),
    decreases items.len(),
{
    if items.len() > 0 {
        let prefix = items.subrange(0, items.len() - 1);
        lemma_every_call_items(prefix, p);
        if forall|i: int| 0 <= i < items.len() ==> every_call_item(#[trigger] items[i], p) {
            assert forall|i: int| 0 <= i < prefix.len() implies every_call_item(#[trigger] prefix[i], p) by {
                assert(prefix[i] == items[i]);
            }
        }
        if every_call_items(items, p) {
            assert forall|i: int| 0 <= i < items.len() implies every_call_item(#[trigger] items[i], p) by {
                if i < items.len() - 1 {
                    assert(prefix[i] == items[i]);
                }
            }
        }
    }
}

/// An inert expression holds no call.
proof fn lemma_inert_has_no_call(e: Expr, p: spec_fn(Expr) -> bool)
    requires
        is_inert(e),
    ensures
        every_call(e, p),
    decreases e,
{
    match e {
        Expr::Paren(inner, _) => lemma_inert_has_no_call(*inner, p),
        Expr::Cast { expr, .. } => lemma_inert_has_no_call(*expr, p),
        _ => {},
    }
}

/// Whether `name` is bound in one of the open scopes.
pub open spec fn in_scope(scopes: Seq<Vec<String>>, name: Seq<char>) -> bool {
    exists|i: int, j: int|
        0 <= i < scopes.len() && 0 <= j < scopes[i]@.len() && #[trigger] scopes[i]@[j]@ == name
}

/// Whether `name` is bound in one of the open scopes.
pub fn is_local(scopes: &Vec<Vec<String>>, name: &String) -> (local: bool)
    ensures
        local == in_scope(scopes@, name@),
{
    let mut i: usize = 0;
    while i < scopes.len()
        invariant
            i <= scopes@.len(),
            forall|a: int, b: int|
                0 <= a < i && 0 <= b < scopes@[a]@.len() ==> #[trigger] scopes@[a]@[b]@ != name@,
        decreases scopes@.len() - i,
    {
        let scope = &scopes[i];
        let mut j: usize = 0;
        while j < scope.len()
            invariant
                i < scopes@.len(),
                j <= scope@.len(),
                scope == scopes@[i as int],
                forall|b: int| 0 <= b < j ==> #[trigger] scope@[b]@ != name@,
            decreases scope@.len() - j,
        {
            if scope[j] == *name {
                assert(scopes@[i as int]@[j as int]@ == name@);
                return true;
            }
            j = j + 1;
        }
        i = i + 1;
    }
    false
}

/// The names of `ids`, in order.
fn identifier_names(ids: &Vec<Identifier>) -> (names: Vec<String>)
    ensures
        names@.len() == ids@.len(),
        forall|i: int| 0 <= i < ids@.len() ==> #[trigger] names@[i]@ == ids@[i].name@,
        names@.map_values(|n: String| n@) == id_names(ids@),
{
    let mut names: Vec<String> = Vec::new();
    let mut i: usize = 0;
    while i < ids.len()
        invariant
            i <= ids@.len(),
            names@.len() == i,
            forall|k: int| 0 <= k < i ==> #[trigger] names@[k]@ == ids@[k].name@,
        decreases ids@.len() - i,
    {
        names.push(ids[i].name.clone());
        i = i + 1;
    }
    assert(names@.map_values(|n: String| n@) =~= id_names(ids@));
    names
}

/// Bring `name` into the innermost open scope.
fn bind_name(scopes: &mut Vec<Vec<String>>, name: String)
    ensures
        scopes_view(final(scopes)@) == bind_into(scopes_view(old(scopes)@), name@),
{
    let ghost before = scopes_view(scopes@);
    let last = scopes.pop();
    match last {
        Some(mut scope) => {
            let ghost inner = scope@;
            scope.push(name);
            scopes.push(scope);
            assert(scopes_view(scopes@) =~= bind_into(before, name@)) by {
                assert(scope@.map_values(|n: String| n@) =~= inner.map_values(|n: String| n@).push(name@));
            }
        },
        None => {
            assert(scopes_view(scopes@) =~= before);
        },
    }
}

/// Bind every call in `e`, outermost first, reporting each call that cannot be bound to
/// `errors`. Where nothing is reported, no call in the result writes a label.
pub fn walk_expr(
    e: Expr,
    table: &SignatureTable,
    scopes: &mut Vec<Vec<String>>,
    errors: &mut Vec<ArgumentError>,
) -> (r: Expr)
    requires
        table.wf(),
        every_call(e, well_labelled_call()),
    ensures
        final(errors)@.len() >= old(errors)@.len(),
        final(errors)@.len() == old(errors)@.len() ==> every_call(r, unlabelled_call()),
        requires_no_label(table@) && every_call(e, unlabelled_call()) ==> final(errors)@.len() == old(errors)@.len(),
        error_views(final(errors)@) == error_views(old(errors)@) + errs_expr(e, table@, scopes_view(old(scopes)@)),
        scopes_view(final(scopes)@) == scopes_view(old(scopes)@),
        rewrites_expr(e, r, table@, scopes_view(old(scopes)@)),
    decreases size(e), 2nat,
{
    let ghost given = e;
    let ghost before = error_views(errors@);
    let ghost sv = scopes_view(scopes@);
    match e {
        Expr::Call { .. } => walk_call(e, table, scopes, errors),
        Expr::FieldAccess { object, field, span } => {
            let object = walk_expr(*object, table, scopes, errors);
            Expr::FieldAccess { object: Box::new(object), field, span }
        },
        Expr::TupleIndex { object, index, span } => {
            let object = walk_expr(*object, table, scopes, errors);
            Expr::TupleIndex { object: Box::new(object), index, span }
        },
        Expr::Index { object, index, span } => {
            let ghost (go, gi) = (*object, *index);
            let object = walk_expr(*object, table, scopes, errors);
            let ghost mid = error_views(errors@);
            let index = walk_expr(*index, table, scopes, errors);
            assert(error_views(errors@) =~= before + (errs_expr(go, table@, sv) + errs_expr(gi, table@, sv)));
            Expr::Index { object: Box::new(object), index: Box::new(index), span }
        },
        Expr::Deref { operand, span } => {
            let operand = walk_expr(*operand, table, scopes, errors);
            Expr::Deref { operand: Box::new(operand), span }
        },
        Expr::Paren(inner, span) => {
            let inner = walk_expr(*inner, table, scopes, errors);
            Expr::Paren(Box::new(inner), span)
        },
        Expr::Cast { expr, target, span } => {
            let expr = walk_expr(*expr, table, scopes, errors);
            Expr::Cast { expr: Box::new(expr), target, span }
        },
        Expr::Block { stmts, span } => {
            let ghost gs = stmts@;
            let fresh: Vec<String> = Vec::new();
            proof {
                assert(fresh@.map_values(|n: String| n@) =~= Seq::<Seq<char>>::empty());
            }
            scopes.push(fresh);
            assert(scopes_view(scopes@) =~= sv.push(Seq::empty()));
            let stmts = walk_stmts(stmts, table, scopes, errors);
            let ghost inner = scopes_view(scopes@);
            let _ = scopes.pop();
            proof {
                lemma_scope_after_keeps_outer(sv.push(Seq::empty()), gs);
                assert(scopes_view(scopes@) =~= inner.drop_last());
                assert(sv.push(Seq::<Seq<char>>::empty()).drop_last() =~= sv);
            }
            Expr::Block { stmts, span }
        },
        Expr::Closure { params, body, span } => {
            let names = identifier_names(&params);
            scopes.push(names);
            assert(scopes_view(scopes@) =~= sv.push(id_names(params@)));
            let body = walk_expr(*body, table, scopes, errors);
            let ghost inner = scopes_view(scopes@);
            let _ = scopes.pop();
            assert(scopes_view(scopes@) =~= inner.drop_last());
            assert(sv.push(id_names(params@)).drop_last() =~= sv);
            Expr::Closure { params, body: Box::new(body), span }
        },
        Expr::Match { scrutinee, arms, span } => {
            let ghost (gs, ga) = (*scrutinee, arms@);
            let scrutinee = walk_expr(*scrutinee, table, scopes, errors);
            let arms = walk_arms(arms, table, scopes, errors);
            assert(error_views(errors@) =~= before + (errs_expr(gs, table@, sv) + errs_arms(ga, table@, sv)));
            Expr::Match { scrutinee: Box::new(scrutinee), arms, span }
        },
        Expr::Other { parts, span } => {
            let parts = walk_exprs(parts, table, scopes, errors);
            Expr::Other { parts, span }
        },
        other => {
            assert(error_views(errors@) =~= before + errs_expr(given, table@, sv));
            other
        },
    }
}

/// Bind every call in each of `es`, in order.
#[verifier::loop_isolation(false)]
pub fn walk_exprs(
    es: Vec<Expr>,
    table: &SignatureTable,
    scopes: &mut Vec<Vec<String>>,
    errors: &mut Vec<ArgumentError>,
) -> (r: Vec<Expr>)
    requires
        table.wf(),
        every_call_in(es@, well_labelled_call()),
    ensures
        final(errors)@.len() >= old(errors)@.len(),
        final(errors)@.len() == old(errors)@.len() ==> every_call_in(r@, unlabelled_call()),
        requires_no_label(table@) && every_call_in(es@, unlabelled_call()) ==> final(errors)@.len()
            == old(errors)@.len(),
        error_views(final(errors)@) == error_views(old(errors)@) + errs_sources(
            es@,
            all_sources(es@.len()),
            table@,
            scopes_view(old(scopes)@),
        ),
        scopes_view(final(scopes)@) == scopes_view(old(scopes)@),
        rewrites_sources(es@, all_sources(es@.len()), r@, table@, scopes_view(old(scopes)@)),
    decreases size_in(es@), 3nat,
{
    let ghost given = es@;
    let ghost start = errors@.len();
    let ghost before = error_views(errors@);
    let ghost sv = scopes_view(scopes@);
    assert(errs_sources(given, all_sources(0), table@, sv) =~= Seq::<ArgumentErrorView>::empty());
    assert(before + Seq::<ArgumentErrorView>::empty() =~= before);
    let ghost quiet = requires_no_label(table@) && every_call_in(given, unlabelled_call());
    proof {
        lemma_every_call_in(given, well_labelled_call());
        lemma_every_call_in(given, unlabelled_call());
    }
    let n = es.len();
    let mut rest = es;
    let mut out: Vec<Expr> = Vec::new();
    let mut i: usize = 0;
    while rest.len() > 0
        invariant
            table.wf(),
            n == given.len(),
            i + rest@.len() == n,
            rest@ == given.subrange(i as int, n as int),
            out@.len() == i,
            errors@.len() >= start,
            forall|k: int| 0 <= k < n ==> every_call(#[trigger] given[k], well_labelled_call()),
            quiet ==> requires_no_label(table@) && errors@.len() == start && forall|k: int|
                0 <= k < n ==> every_call(#[trigger] given[k], unlabelled_call()),
            errors@.len() == start ==> forall|k: int|
                0 <= k < i ==> every_call(#[trigger] out@[k], unlabelled_call()),
            error_views(errors@) == before + errs_sources(given, all_sources(i as nat), table@, sv),
            scopes_view(scopes@) == sv,
            rewrites_sources(given, all_sources(i as nat), out@, table@, sv),
        decreases rest@.len(),
    {
        let x = rest.remove(0);
        proof {
            assert(x == given[i as int]);
            lemma_size_in(given, i as int);
        }
        let ghost prior = error_views(errors@);
        let ghost before_out = out@;
        let walked = walk_expr(x, table, scopes, errors);
        proof {
            assert(all_sources((i + 1) as nat).drop_last() =~= all_sources(i as nat));
            assert(all_sources((i + 1) as nat).last() == Some(i as int));
            assert(error_views(errors@) =~= before + errs_sources(given, all_sources((i + 1) as nat), table@, sv));
        }
        out.push(walked);
        proof {
            assert(out@.drop_last() =~= before_out);
            assert(out@.last() == walked);
        }
        i = i + 1;
    }
    proof {
        lemma_every_call_in(out@, unlabelled_call());
    }
    out
}

/// Bind every call in the statements `ss`; a declared name is in scope after its
/// statement.
#[verifier::loop_isolation(false)]
pub fn walk_stmts(
    ss: Vec<Stmt>,
    table: &SignatureTable,
    scopes: &mut Vec<Vec<String>>,
    errors: &mut Vec<ArgumentError>,
) -> (r: Vec<Stmt>)
    requires
        table.wf(),
        every_call_stmts(ss@, well_labelled_call()),
    ensures
        final(errors)@.len() >= old(errors)@.len(),
        final(errors)@.len() == old(errors)@.len() ==> every_call_stmts(r@, unlabelled_call()),
        requires_no_label(table@) && every_call_stmts(ss@, unlabelled_call()) ==> final(errors)@.len()
            == old(errors)@.len(),
        error_views(final(errors)@) == error_views(old(errors)@) + errs_stmts(ss@, table@, scopes_view(old(scopes)@)),
        scopes_view(final(scopes)@) == scope_after_stmts(scopes_view(old(scopes)@), ss@),
        rewrites_stmts(ss@, r@, table@, scopes_view(old(scopes)@)),
    decreases size_stmts(ss@), 3nat,
{
    let ghost given = ss@;
    let ghost start = errors@.len();
    let ghost before = error_views(errors@);
    let ghost sv = scopes_view(scopes@);
    assert(given.subrange(0, 0) =~= Seq::<Stmt>::empty());
    assert(before + errs_stmts(given.subrange(0, 0), table@, sv) =~= before);
    let ghost quiet = requires_no_label(table@) && every_call_stmts(given, unlabelled_call());
    proof {
        lemma_every_call_stmts(given, well_labelled_call());
        lemma_every_call_stmts(given, unlabelled_call());
    }
    let n = ss.len();
    let mut rest = ss;
    let mut out: Vec<Stmt> = Vec::new();
    let mut i: usize = 0;
    while rest.len() > 0
        invariant
            table.wf(),
            n == given.len(),
            i + rest@.len() == n,
            rest@ == given.subrange(i as int, n as int),
            out@.len() == i,
            errors@.len() >= start,
            forall|k: int| 0 <= k < n ==> every_call_stmt(#[trigger] given[k], well_labelled_call()),
            quiet ==> requires_no_label(table@) && errors@.len() == start && forall|k: int|
                0 <= k < n ==> every_call_stmt(#[trigger] given[k], unlabelled_call()),
            errors@.len() == start ==> forall|k: int|
                0 <= k < i ==> every_call_stmt(#[trigger] out@[k], unlabelled_call()),
            error_views(errors@) == before + errs_stmts(given.subrange(0, i as int), table@, sv),
            scopes_view(scopes@) == scope_after_stmts(sv, given.subrange(0, i as int)),
            rewrites_stmts(given.subrange(0, i as int), out@, table@, sv),
        decreases rest@.len(),
    {
        let x = rest.remove(0);
        proof {
            assert(x == given[i as int]);
            lemma_size_stmts(given, i as int);
        }
        let ghost before_out = out@;
        let walked = walk_stmt(x, table, scopes, errors);
        proof {
            let next = given.subrange(0, i + 1);
            assert(next.subrange(0, i as int) =~= given.subrange(0, i as int));
            assert(next.drop_last() =~= given.subrange(0, i as int));
            assert(next[i as int] == given[i as int]);
            assert(error_views(errors@) =~= before + errs_stmts(next, table@, sv));
        }
        out.push(walked);
        proof {
            assert(out@.subrange(0, i as int) =~= before_out);
            assert(out@[i as int] == walked);
        }
        i = i + 1;
    }
    proof {
        lemma_every_call_stmts(out@, unlabelled_call());
        assert(given.subrange(0, n as int) =~= given);
    }
    out
}

/// Bind every call in statement `s`. The initializer is walked before the declared name
/// exists: `val f = f(1)` calls whatever `f` meant above this line.
pub fn walk_stmt(
    s: Stmt,
    table: &SignatureTable,
    scopes: &mut Vec<Vec<String>>,
    errors: &mut Vec<ArgumentError>,
) -> (r: Stmt)
    requires
        table.wf(),
        every_call_stmt(s, well_labelled_call()),
    ensures
        final(errors)@.len() >= old(errors)@.len(),
        final(errors)@.len() == old(errors)@.len() ==> every_call_stmt(r, unlabelled_call()),
        requires_no_label(table@) && every_call_stmt(s, unlabelled_call()) ==> final(errors)@.len()
            == old(errors)@.len(),
        error_views(final(errors)@) == error_views(old(errors)@) + errs_stmt(s, table@, scopes_view(old(scopes)@)),
        scopes_view(final(scopes)@) == scope_after_stmt(scopes_view(old(scopes)@), s),
        rewrites_stmt(s, r, table@, scopes_view(old(scopes)@)),
    decreases size_stmt(s), 2nat,
{
    let ghost given = s;
    let ghost before = error_views(errors@);
    let ghost sv = scopes_view(scopes@);
    match s {
        Stmt::VarDecl { name, ty, init, mutable, span } => {
            let init = match init {
                Some(x) => Some(walk_expr(x, table, scopes, errors)),
                None => {
                    assert(error_views(errors@) =~= before + errs_stmt(given, table@, sv));
                    None
                },
            };
            bind_name(scopes, name.name.clone());
            Stmt::VarDecl { name, ty, init, mutable, span }
        },
        Stmt::Loop { header, bound, body, span } => {
            let ghost (gh, gb) = (header@, body@);
            let header = walk_exprs(header, table, scopes, errors);
            let names = identifier_names(&bound);
            scopes.push(names);
            assert(scopes_view(scopes@) =~= sv.push(id_names(bound@)));
            let body = walk_stmts(body, table, scopes, errors);
            let ghost inner = scopes_view(scopes@);
            let _ = scopes.pop();
            proof {
                lemma_scope_after_keeps_outer(sv.push(id_names(bound@)), gb);
                assert(scopes_view(scopes@) =~= inner.drop_last());
                assert(sv.push(id_names(bound@)).drop_last() =~= sv);
                assert(error_views(errors@) =~= before + errs_stmt(given, table@, sv));
            }
            Stmt::Loop { header, bound, body, span }
        },
        Stmt::ValElse { value, else_binding, else_block, pattern, span } => {
            let ghost (gv, ge) = (value, else_block@);
            let ghost opened: Seq<Seq<char>> = match &else_binding {
                Some(b) => seq![b.name@],
                None => Seq::empty(),
            };
            let value = walk_expr(value, table, scopes, errors);
            let fresh: Vec<String> = Vec::new();
            proof {
                assert(fresh@.map_values(|n: String| n@) =~= Seq::<Seq<char>>::empty());
            }
            scopes.push(fresh);
            assert(scopes_view(scopes@) =~= sv.push(Seq::empty()));
            match &else_binding {
                Some(binding) => bind_name(scopes, binding.name.clone()),
                None => {},
            }
            assert(scopes_view(scopes@) =~= sv.push(opened));
            let else_block = walk_stmts(else_block, table, scopes, errors);
            let ghost inner = scopes_view(scopes@);
            let _ = scopes.pop();
            proof {
                lemma_scope_after_keeps_outer(sv.push(opened), ge);
                assert(scopes_view(scopes@) =~= inner.drop_last());
                assert(sv.push(opened).drop_last() =~= sv);
                assert(error_views(errors@) =~= before + errs_stmt(given, table@, sv));
            }
            let ghost after = error_views(errors@);
            let mut i: usize = 0;
            assert(pattern@.take(0) =~= Seq::<Identifier>::empty());
            while i < pattern.len()
                invariant
                    i <= pattern@.len(),
                    error_views(errors@) == after,
                    scopes_view(scopes@) == bind_all(sv, pattern@.take(i as int)),
                decreases pattern@.len() - i,
            {
                bind_name(scopes, pattern[i].name.clone());
                proof {
                    assert(pattern@.take(i + 1).drop_last() =~= pattern@.take(i as int));
                    assert(pattern@.take(i + 1).last() == pattern@[i as int]);
                }
                i = i + 1;
            }
            assert(pattern@.take(i as int) =~= pattern@);
            Stmt::ValElse { value, else_binding, else_block, pattern, span }
        },
        Stmt::Expr(x) => Stmt::Expr(walk_expr(x, table, scopes, errors)),
    }
}

/// Bind every call in the arms of a `match`, each with its pattern's names in scope.
#[verifier::loop_isolation(false)]
pub fn walk_arms(
    arms: Vec<MatchArm>,
    table: &SignatureTable,
    scopes: &mut Vec<Vec<String>>,
    errors: &mut Vec<ArgumentError>,
) -> (r: Vec<MatchArm>)
    requires
        table.wf(),
        every_call_arms(arms@, well_labelled_call()),
    ensures
        final(errors)@.len() >= old(errors)@.len(),
        final(errors)@.len() == old(errors)@.len() ==> every_call_arms(r@, unlabelled_call()),
        requires_no_label(table@) && every_call_arms(arms@, unlabelled_call()) ==> final(errors)@.len()
            == old(errors)@.len(),
        error_views(final(errors)@) == error_views(old(errors)@) + errs_arms(arms@, table@, scopes_view(old(scopes)@)),
        scopes_view(final(scopes)@) == scopes_view(old(scopes)@),
        rewrites_arms(arms@, r@, table@, scopes_view(old(scopes)@)),
    decreases size_arms(arms@), 3nat,
{
    let ghost given = arms@;
    let ghost start = errors@.len();
    let ghost before = error_views(errors@);
    let ghost sv = scopes_view(scopes@);
    assert(given.subrange(0, 0) =~= Seq::<MatchArm>::empty());
    assert(before + errs_arms(given.subrange(0, 0), table@, sv) =~= before);
    let ghost quiet = requires_no_label(table@) && every_call_arms(given, unlabelled_call());
    proof {
        lemma_every_call_arms(given, well_labelled_call());
        lemma_every_call_arms(given, unlabelled_call());
    }
    let n = arms.len();
    let mut rest = arms;
    let mut out: Vec<MatchArm> = Vec::new();
    let mut i: usize = 0;
    while rest.len() > 0
        invariant
            table.wf(),
            n == given.len(),
            i + rest@.len() == n,
            rest@ == given.subrange(i as int, n as int),
            out@.len() == i,
            errors@.len() >= start,
            forall|k: int| 0 <= k < n ==> every_call_arm(#[trigger] given[k], well_labelled_call()),
            quiet ==> requires_no_label(table@) && errors@.len() == start && forall|k: int|
                0 <= k < n ==> every_call_arm(#[trigger] given[k], unlabelled_call()),
            errors@.len() == start ==> forall|k: int|
                0 <= k < i ==> every_call_arm(#[trigger] out@[k], unlabelled_call()),
            error_views(errors@) == before + errs_arms(given.subrange(0, i as int), table@, sv),
            scopes_view(scopes@) == sv,
            rewrites_arms(given.subrange(0, i as int), out@, table@, sv),
        decreases rest@.len(),
    {
        let arm = rest.remove(0);
        proof {
            assert(arm == given[i as int]);
            lemma_size_arms(given, i as int);
        }
        let ghost prior = error_views(errors@);
        let ghost garm = arm;
        let MatchArm { bindings, guard, body } = arm;
        let names = identifier_names(&bindings);
        scopes.push(names);
        let ghost inner = sv.push(id_names(bindings@));
        assert(scopes_view(scopes@) =~= inner);
        let guard = match guard {
            Some(g) => Some(walk_expr(g, table, scopes, errors)),
            None => None,
        };
        let ghost mid = error_views(errors@);
        let body = walk_expr(body, table, scopes, errors);
        let ghost popped = scopes_view(scopes@);
        let _ = scopes.pop();
        proof {
            assert(scopes_view(scopes@) =~= popped.drop_last());
            assert(inner.drop_last() =~= sv);
            let next = given.subrange(0, i + 1);
            assert(next.subrange(0, i as int) =~= given.subrange(0, i as int));
            assert(next[i as int] == garm);
            let gerr = match garm.guard {
                Some(g) => errs_expr(g, table@, inner),
                None => Seq::<ArgumentErrorView>::empty(),
            };
            assert(mid =~= prior + gerr);
            assert(error_views(errors@) =~= before + errs_arms(next, table@, sv));
        }
        let ghost before_out = out@;
        out.push(MatchArm { bindings, guard, body });
        proof {
            let next = given.subrange(0, i + 1);
            assert(out@.subrange(0, i as int) =~= before_out);
            assert(next[i as int] == garm);
        }
        i = i + 1;
    }
    proof {
        lemma_every_call_arms(out@, unlabelled_call());
        assert(given.subrange(0, n as int) =~= given);
    }
    out
}

/// Bind a call, then walk on through what binding left: the call's callee and arguments,
/// or, where the call was hoisted, the temporaries' initializers and then the callee,
/// since the arguments of the call the block ends with are already bound.
pub fn walk_call(
    e: Expr,
    table: &SignatureTable,
    scopes: &mut Vec<Vec<String>>,
    errors: &mut Vec<ArgumentError>,
) -> (r: Expr)
    requires
        table.wf(),
        every_call(e, well_labelled_call()),
        e is Call,
    ensures
        final(errors)@.len() >= old(errors)@.len(),
        final(errors)@.len() == old(errors)@.len() ==> every_call(r, unlabelled_call()),
        requires_no_label(table@) && every_call(e, unlabelled_call()) ==> final(errors)@.len() == old(errors)@.len(),
        error_views(final(errors)@) == error_views(old(errors)@) + errs_call(e, table@, scopes_view(old(scopes)@)),
        scopes_view(final(scopes)@) == scopes_view(old(scopes)@),
        rewrites_call(e, r, table@, scopes_view(old(scopes)@)),
    decreases size(e), 1nat,
{
    let ghost given = e;
    let ghost start = errors@.len();
    let ghost before = error_views(errors@);
    let ghost sv = scopes_view(scopes@);
    let local = match &e {
        Expr::Call { func, .. } => match &**func {
            Expr::Identifier(ident) => is_local(scopes, &ident.name),
            _ => false,
        },
        _ => false,
    };
    proof {
        if let Expr::Call { func, .. } = given {
            if let Expr::Identifier(ident) = *func {
                lemma_visible(scopes@, ident.name@);
            }
            assert(local == callee_is_local(*func, sv));
        }
    }
    let (bound, outcome) = bind_call(e, table, local);
    proof {
        if requires_no_label(table@) && every_call(given, unlabelled_call()) {
            lemma_quiet_outcome(given, table@, local, (bound, outcome));
        }
        assert(bind_call_exact(given, table@, local, (bound, outcome)));
        lemma_call_report(given, table@, local, (bound, outcome), sv);
    }
    match outcome {
        Ok(Bound::Hoisted) => {
            proof {
                lemma_hoisted_outcome(given, table@, local, bound);
            }
            let ghost gbound = bound;
            let r = walk_hoisted(Ghost(given), Ghost(start), bound, table, scopes, errors);
            proof {
                if let Expr::Call { func, type_args, args, span, .. } = given {
                    let order = bound_order(given, table@, local);
                    let sig = choose|sig: Signature|
                        sig@ == callee_params(*func, table@, local) && #[trigger] is_hoisted_block(
                            gbound,
                            *func,
                            type_args,
                            args@,
                            order,
                            sig,
                            span,
                        );
                    assert(sig@ == callee_params(*func, table@, local) && is_hoisted_block(
                        gbound,
                        *func,
                        type_args,
                        args@,
                        order,
                        sig,
                        span,
                    ) && same_block_shape(gbound, r));
                }
            }
            r
        },
        Ok(Bound::InPlace) => {
            proof {
                lemma_in_place_outcome(given, table@, local, bound);
            }
            let ghost gbound = bound;
            let r = walk_call_parts(Ghost(given), Ghost(start), bound, table, scopes, errors);
            proof {
                if let Expr::Call { func, args, .. } = given {
                    let srcs = continuation(given, table@, local)->Parts_0;
                    let gr = r;
                    if let (Expr::Call { args: ba, .. }, Expr::Call { args: ra, .. }) = (gbound, gr) {
                        lemma_arranged_rewrites(ba@, args@, srcs, ra@, table@, sv, ba@.len() as int);
                        assert(srcs.take(ba@.len() as int) =~= srcs);
                        assert(no_written_label(gbound));
                        assert(fills_defaults(callee_params(*func, table@, local), srcs, ra@, given->Call_span));
                    }
                    assert(error_views(errors@) =~= before + (errs_expr(*func, table@, sv) + errs_sources(
                        args@,
                        srcs,
                        table@,
                        sv,
                    )));
                }
            }
            r
        },
        Err(error) => {
            proof {
                lemma_failed_outcome(given, table@, local, bound, error);
            }
            errors.push(error);
            assert(error_views(errors@) =~= before + seq![error@]);
            let r = walk_call_parts(Ghost(given), Ghost(start), bound, table, scopes, errors);
            proof {
                if let Expr::Call { func, args, .. } = given {
                    assert(error_views(errors@) =~= before + (seq![error@] + errs_expr(*func, table@, sv)
                        + errs_sources(args@, all_sources(args@.len()), table@, sv)));
                }
            }
            r
        },
    }
}

/// Whether no declaration in `t` requires a label at its call sites.
pub open spec fn requires_no_label(t: TableView) -> bool {
    &&& forall|n: Seq<char>| #[trigger] t.functions.dom().contains(n) ==> !has_required_label(t.functions[n])
    &&& forall|k: (Seq<char>, Seq<char>)| #[trigger] t.assoc.dom().contains(k) ==> !has_required_label(t.assoc[k])
    &&& forall|n: Seq<char>| #[trigger] t.methods.dom().contains(n) && t.methods[n] is Some
        ==> !has_required_label(t.methods[n]->0)
}

/// A call that writes no label, against a program none of whose declarations requires
/// one, is bound in place without error.
proof fn lemma_quiet_outcome(
    given: Expr,
    table: TableView,
    local: bool,
    result: (Expr, Result<Bound, ArgumentError>),
)
    requires
        given is Call,
        bind_call_exact(given, table, local, result),
        requires_no_label(table),
        no_written_label(given),
    ensures
        result.1 == Ok::<Bound, ArgumentError>(Bound::InPlace),
{
    if let Expr::Call { arg_labels, .. } = given {
        let lv = super::calls::ident_label_views(arg_labels@);
        assert forall|j: int| 0 <= j < lv.len() implies !#[trigger] super::binding::labelled(lv)(j) by {
            assert(arg_labels@[j] is None);
        }
        super::binding::lemma_first_none(0, lv.len() as int, super::binding::labelled(lv));
    }
}

/// Whether `bound` keeps `given`'s callee and takes each argument from `given`'s
/// arguments or a literal default.
pub open spec fn descends_from(bound: Expr, given: Expr) -> bool {
    match (bound, given) {
        (Expr::Call { func: bf, args: ba, .. }, Expr::Call { func: of, args: oa, .. }) => {
            &&& *bf == *of
            &&& forall|k: int|
                0 <= k < ba@.len() ==> (#[trigger] ba@[k] is Literal || exists|j: int|
                    0 <= j < oa@.len() && ba@[k] == oa@[j])
        },
        _ => false,
    }
}

/// A call bound in place keeps its callee, takes its arguments from the call or from
/// literal defaults, and writes no label.
proof fn lemma_in_place_outcome(given: Expr, table: super::signatures::TableView, local: bool, bound: Expr)
    requires
        given is Call,
        bind_call_exact(given, table, local, (bound, Ok::<Bound, ArgumentError>(Bound::InPlace))),
    ensures
        descends_from(bound, given),
        no_written_label(bound),
        bound is Call,
{
    if let Expr::Call { func, type_args, args, arg_labels, span } = given {
        match callee_lookup(*func, table, local) {
            super::signatures::LookupView::Known(params) => {
                let outcome = super::binding::binding_outcome(
                    super::calls::ident_label_views(arg_labels@),
                    args@.len() as int,
                    params,
                    super::calls::callee_name(*func),
                    span,
                    super::calls::arg_spans(args@),
                );
                match outcome {
                    Ok(super::binding::BindingPlanView::Unchanged) => {
                        assert(descends_from(bound, given)) by {
                            if let Expr::Call { args: ba, .. } = bound {
                                assert forall|k: int| 0 <= k < ba@.len() implies (#[trigger] ba@[k] is Literal
                                    || exists|j: int| 0 <= j < args@.len() && ba@[k] == args@[j]) by {
                                    assert(ba@[k] == args@[k]);
                                }
                            }
                        }
                    },
                    Ok(super::binding::BindingPlanView::Slots(plan)) => {
                        let result = (bound, Ok::<Bound, ArgumentError>(Bound::InPlace));
                        assert(super::calls::slots_outcome(params, plan, given, result));
                        let (sig, slots) = choose|sig: super::signatures::Signature, slots: Seq<Option<usize>>|
                            #[trigger] super::calls::bound_with(sig, slots, params, plan, given, result);
                        assert(super::calls::bound_with(sig, slots, params, plan, given, result));
                        assert(descends_from(bound, given)) by {
                            if let Expr::Call { args: ba, .. } = bound {
                                assert forall|k: int| 0 <= k < ba@.len() implies (#[trigger] ba@[k] is Literal
                                    || exists|j: int| 0 <= j < args@.len() && ba@[k] == args@[j]) by {
                                    assert(ba@[k] == arranged_argument(args@, slots[k], super::calls::defaults_of(sig)[k], span));
                                    if let Some(src) = slots[k] {
                                        assert(src < args@.len());
                                        assert(ba@[k] == args@[src as int]);
                                    }
                                }
                            }
                        }
                    },
                    Err(_) => {},
                }
            },
            _ => {
                lemma_no_first_label(arg_labels@);
            },
        }
    }
}

/// A call whose first label is none writes no label.
proof fn lemma_no_first_label(labels: Seq<Option<Identifier>>)
    requires
        first_label_spec(labels) is None,
    ensures
        forall|i: int| 0 <= i < labels.len() ==> #[trigger] labels[i] is None,
{
    let lv = super::calls::ident_label_views(labels);
    if super::binding::named_from(lv) is Some {
        super::binding::lemma_first_where_is_first(0, lv.len() as int, super::binding::labelled(lv));
    }
    assert forall|i: int| 0 <= i < labels.len() implies #[trigger] labels[i] is None by {
        if labels[i] is Some {
            assert(super::binding::labelled(lv)(i));
        }
    }
}

/// A call that cannot be bound is left as it was.
proof fn lemma_failed_outcome(
    given: Expr,
    table: super::signatures::TableView,
    local: bool,
    bound: Expr,
    error: ArgumentError,
)
    requires
        given is Call,
        bind_call_exact(given, table, local, (bound, Err::<Bound, ArgumentError>(error))),
    ensures
        descends_from(bound, given),
        bound is Call,
{
    if let Expr::Call { func, type_args, args, arg_labels, span } = given {
        assert(bound == given);
        if let Expr::Call { args: ba, .. } = bound {
            assert forall|k: int| 0 <= k < ba@.len() implies (#[trigger] ba@[k] is Literal
                || exists|j: int| 0 <= j < args@.len() && ba@[k] == args@[j]) by {
                assert(ba@[k] == args@[k]);
            }
        }
    }
}

/// A hoisted call is its block of temporaries by some plan.
proof fn lemma_hoisted_outcome(given: Expr, table: super::signatures::TableView, local: bool, bound: Expr)
    requires
        given is Call,
        bind_call_exact(given, table, local, (bound, Ok::<Bound, ArgumentError>(Bound::Hoisted))),
    ensures
        hoisted_from(bound, given),
{
    if let Expr::Call { func, type_args, args, arg_labels, span } = given {
        match callee_lookup(*func, table, local) {
            super::signatures::LookupView::Known(params) => {
                let outcome = super::binding::binding_outcome(
                    super::calls::ident_label_views(arg_labels@),
                    args@.len() as int,
                    params,
                    super::calls::callee_name(*func),
                    span,
                    super::calls::arg_spans(args@),
                );
                match outcome {
                    Ok(super::binding::BindingPlanView::Slots(plan)) => {
                        let result = (bound, Ok::<Bound, ArgumentError>(Bound::Hoisted));
                        assert(super::calls::slots_outcome(params, plan, given, result));
                        let (sig, slots) = choose|sig: super::signatures::Signature, slots: Seq<Option<usize>>|
                            #[trigger] super::calls::bound_with(sig, slots, params, plan, given, result);
                        assert(super::calls::bound_with(sig, slots, params, plan, given, result));
                        let order = super::calls::plan_order(slots);
                        assert(is_hoisted_block(bound, *func, type_args, args@, order, sig, span));
                    },
                    _ => {},
                }
            },
            _ => {},
        }
    }
}

/// Whether `bound` passes, slot by slot, the written argument of `args` at each of
/// `sources`, or a literal where a source is `None`.
pub open spec fn takes_sources(bound: Seq<Expr>, args: Seq<Expr>, sources: Seq<Option<int>>) -> bool {
    &&& bound.len() == sources.len()
    &&& forall|i: int|
        0 <= i < bound.len() ==> match #[trigger] sources[i] {
            Some(s) => 0 <= s < args.len() && bound[i] == args[s],
            None => bound[i] is Literal,
        }
}

/// A full plan over written arguments has the same sources whether its slots are read
/// as machine or mathematical indices.
proof fn lemma_plan_views(slots: Seq<Option<usize>>, plan: Seq<Option<int>>)
    requires
        slots_view(slots) == plan,
    ensures
        no_defaults(slots) == plan_full(plan),
        no_defaults(slots) ==> plan_order(slots) == plan_sources(plan),
{
    assert(plan.len() == slots.len());
    assert forall|t: int| 0 <= t < slots.len() implies (#[trigger] slots[t] is Some) == (plan[t] is Some) by {
        assert(plan[t] == match slots[t] {
            Some(i) => Some(i as int),
            None => None,
        });
    }
    if no_defaults(slots) {
        assert forall|t: int| 0 <= t < slots.len() implies #[trigger] plan_order(slots)[t] == plan_sources(plan)[t] by {
            assert(slots[t] is Some);
            assert(plan[t] == Some(slots[t]->0 as int));
        }
        assert(plan_order(slots) =~= plan_sources(plan));
    }
}

/// What binding the call `given` reports, and what the walk goes on through: the call
/// itself and its error where it breaks a rule; where it binds in place, the callee and
/// arguments whose errors are those of the written arguments at the plan's sources;
/// where it is hoisted, the written arguments that carry effects.
proof fn lemma_call_report(
    given: Expr,
    table: TableView,
    local: bool,
    result: (Expr, Result<Bound, ArgumentError>),
    scopes: Seq<Seq<Seq<char>>>,
)
    requires
        given is Call,
        bind_call_exact(given, table, local, result),
    ensures
        match result.1 {
            Err(x) => own_error(given, table, local) == Some(x@) && result.0 == given,
            Ok(Bound::InPlace) => {
                &&& own_error(given, table, local) is None
                &&& continuation(given, table, local) is Parts
                &&& result.0 is Call
                &&& result.0->func == given->func
                &&& result.0->type_args == given->type_args
                &&& result.0->Call_span == given->Call_span
                &&& errs_sources(result.0->args@, all_sources(result.0->args@.len()), table, scopes)
                    == errs_sources(given->args@, continuation(given, table, local)->Parts_0, table, scopes)
                &&& takes_sources(result.0->args@, given->args@, continuation(given, table, local)->Parts_0)
                &&& given matches Expr::Call { func, arg_labels, span, .. } ==> kept_labels(
                    callee_lookup(*func, table, local),
                    arg_labels@,
                    result.0->arg_labels@,
                ) && fills_defaults(
                    callee_params(*func, table, local),
                    continuation(given, table, local)->Parts_0,
                    result.0->args@,
                    span,
                )
            },
            Ok(Bound::Hoisted) => {
                &&& own_error(given, table, local) is None
                &&& continuation(given, table, local) == Continuation::Temporaries(effect_sources(given->args@))
                &&& given matches Expr::Call { func, type_args, args, span, .. } ==> exists|sig: Signature|
                    sig@ == callee_params(*func, table, local) && #[trigger] is_hoisted_block(
                        result.0,
                        *func,
                        type_args,
                        args@,
                        bound_order(given, table, local),
                        sig,
                        span,
                    )
            },
        },
{
    if let Expr::Call { func, type_args, args, arg_labels, span } = given {
        let n = args@.len();
        match callee_lookup(*func, table, local) {
            LookupView::Known(params) => {
                let outcome = binding_outcome(
                    ident_label_views(arg_labels@),
                    n as int,
                    params,
                    callee_name(*func),
                    span,
                    arg_spans(args@),
                );
                match outcome {
                    Err(_) => {},
                    Ok(BindingPlanView::Unchanged) => {
                        if let Expr::Call { args: ba, .. } = result.0 {
                            assert(fills_defaults(params, all_sources(n), ba@, span));
                            assert(ba@ == args@);
                            assert(all_sources(n).take(n as int) =~= all_sources(n));
                            lemma_arranged_errs(ba@, args@, all_sources(n), table, scopes, n as int);
                            assert(takes_sources(ba@, args@, all_sources(n)));
                        }
                    },
                    Ok(BindingPlanView::Slots(plan)) => {
                        assert(slots_outcome(params, plan, given, result));
                        let (sig, slots) = choose|sig: Signature, slots: Seq<Option<usize>>|
                            #[trigger] bound_with(sig, slots, params, plan, given, result);
                        assert(bound_with(sig, slots, params, plan, given, result));
                        lemma_plan_views(slots, plan);
                        if result.1 == Ok::<Bound, ArgumentError>(Bound::Hoisted) {
                            assert(bound_order(given, table, local) == plan_sources(plan));
                            assert(is_hoisted_block(result.0, *func, type_args, args@, plan_sources(plan), sig, span));
                        }
                        if result.1 == Ok::<Bound, ArgumentError>(Bound::InPlace) {
                            if let Expr::Call { args: ba, .. } = result.0 {
                                assert forall|k: int| 0 <= k < plan.len() && #[trigger] plan[k] is None implies k
                                    < params.len() && k < ba@.len() && is_default_literal(ba@[k], params[k].default, span) by {
                                    assert(plan[k] == match slots[k] {
                                        Some(j) => Some(j as int),
                                        None => None,
                                    });
                                    assert(ba@[k] == arranged_argument(args@, slots[k], defaults_of(sig)[k], span));
                                    assert(defaults_of(sig)[k] == sig.params@[k].default);
                                    assert(params[k] == sig.params@[k]@);
                                }
                                assert forall|i: int| 0 <= i < ba@.len() implies match #[trigger] plan[i] {
                                    Some(s) => 0 <= s < args@.len() && ba@[i] == args@[s],
                                    None => ba@[i] is Literal,
                                } by {
                                    assert(ba@[i] == arranged_argument(args@, slots[i], defaults_of(sig)[i], span));
                                    assert(plan[i] == match slots[i] {
                                        Some(j) => Some(j as int),
                                        None => None,
                                    });
                                }
                                assert(plan.take(plan.len() as int) =~= plan);
                                lemma_arranged_errs(ba@, args@, plan, table, scopes, plan.len() as int);
                            }
                        }
                    },
                }
            },
            _ => {
                if result.1 == Ok::<Bound, ArgumentError>(Bound::InPlace) {
                    lemma_no_first_label(arg_labels@);
                    assert(fills_defaults(callee_params(*func, table, local), all_sources(n), args@, span));
                    assert(all_sources(n).take(n as int) =~= all_sources(n));
                    lemma_arranged_errs(args@, args@, all_sources(n), table, scopes, n as int);
                    assert(takes_sources(args@, args@, all_sources(n)));
                }
            },
        }
    }
}

/// Whether `bound` is `given` hoisted into a block of temporaries by some plan.
pub open spec fn hoisted_from(bound: Expr, given: Expr) -> bool {
    match given {
        Expr::Call { func, type_args, args, span, .. } => {
            &&& super::hoisting::callee_allows_hoisting(*func)
            &&& exists|order: Seq<usize>, sig: super::signatures::Signature|
                #[trigger] is_hoisted_block(bound, *func, type_args, args@, order, sig, span)
        },
        _ => false,
    }
}

/// Walk on through a call that binding left a call: its callee, then its arguments.
fn walk_call_parts(
    Ghost(given): Ghost<Expr>,
    Ghost(start): Ghost<nat>,
    bound: Expr,
    table: &SignatureTable,
    scopes: &mut Vec<Vec<String>>,
    errors: &mut Vec<ArgumentError>,
) -> (r: Expr)
    requires
        table.wf(),
        every_call(given, well_labelled_call()),
        descends_from(bound, given),
        old(errors)@.len() >= start,
        old(errors)@.len() > start || no_written_label(bound),
    ensures
        final(errors)@.len() >= old(errors)@.len(),
        final(errors)@.len() == start ==> every_call(r, unlabelled_call()),
        requires_no_label(table@) && every_call(given, unlabelled_call()) ==> final(errors)@.len()
            == old(errors)@.len(),
        bound matches Expr::Call { func, args, .. } ==> error_views(final(errors)@) == error_views(
            old(errors)@,
        ) + errs_expr(*func, table@, scopes_view(old(scopes)@)) + errs_sources(
            args@,
            all_sources(args@.len()),
            table@,
            scopes_view(old(scopes)@),
        ),
        scopes_view(final(scopes)@) == scopes_view(old(scopes)@),
        bound matches Expr::Call { func, type_args, args, arg_labels, span } ==> (r matches Expr::Call {
            func: rf,
            type_args: rt,
            args: ra,
            arg_labels: rl,
            span: rs,
        } && rt == type_args && rl == arg_labels && rs == span && rewrites_expr(
            *func,
            *rf,
            table@,
            scopes_view(old(scopes)@),
        ) && rewrites_sources(args@, all_sources(args@.len()), ra@, table@, scopes_view(old(scopes)@))),
    decreases size(given), 0nat,
{
    let ghost before = error_views(errors@);
    let ghost sv = scopes_view(scopes@);
    match bound {
        Expr::Call { func, type_args, args, arg_labels, span } => {
            let ghost gfunc = *func;
            let ghost oargs = match given {
                Expr::Call { args: a, .. } => a@,
                _ => Seq::empty(),
            };
            let ghost quiet = requires_no_label(table@) && every_call(given, unlabelled_call());
            proof {
                lemma_every_call_in(oargs, well_labelled_call());
                lemma_every_call_in(oargs, unlabelled_call());
                assert forall|j: int| 0 <= j < oargs.len() implies size(#[trigger] oargs[j]) < size(given) by {
                    lemma_size_in(oargs, j);
                }
            }
            let ghost bargs = args@;
            let ghost entry = errors@.len();
            let func = walk_expr(*func, table, scopes, errors);
            let ghost after_func = errors@.len();
            let ghost func_errs = error_views(errors@);
            assert(errs_sources(bargs, all_sources(0), table@, sv) =~= Seq::<ArgumentErrorView>::empty());
            assert(func_errs + Seq::<ArgumentErrorView>::empty() =~= func_errs);
            assert(all_sources(0) =~= Seq::<Option<int>>::empty());
            let n = args.len();
            let mut rest = args;
            let mut out: Vec<Expr> = Vec::new();
            let mut i: usize = 0;
            while rest.len() > 0
                invariant
                    table.wf(),
                    n == bargs.len(),
                    i + rest@.len() == n,
                    rest@ == bargs.subrange(i as int, n as int),
                    out@.len() == i,
                    forall|k: int| 0 <= k < n ==> (#[trigger] bargs[k] is Literal || exists|j: int|
                        0 <= j < oargs.len() && bargs[k] == oargs[j]),
                    forall|j: int| 0 <= j < oargs.len() ==> size(#[trigger] oargs[j]) < size(given),
                    forall|j: int| 0 <= j < oargs.len() ==> every_call(#[trigger] oargs[j], well_labelled_call()),
                    size(given) >= 2,
                    quiet ==> requires_no_label(table@) && errors@.len() == entry && forall|j: int|
                        0 <= j < oargs.len() ==> every_call(#[trigger] oargs[j], unlabelled_call()),
                    entry >= start,
                    after_func >= entry,
                    errors@.len() >= after_func,
                    after_func == start ==> every_call(func, unlabelled_call()),
                    entry > start || forall|q: int|
                        0 <= q < arg_labels@.len() ==> #[trigger] arg_labels@[q] is None,
                    errors@.len() == start ==> forall|k: int|
                        0 <= k < i ==> every_call(#[trigger] out@[k], unlabelled_call()),
                    func_errs == before + errs_expr(gfunc, table@, sv),
                    error_views(errors@) == func_errs + errs_sources(bargs, all_sources(i as nat), table@, sv),
                    scopes_view(scopes@) == sv,
                    rewrites_expr(gfunc, func, table@, sv),
                    rewrites_sources(bargs, all_sources(i as nat), out@, table@, sv),
                decreases rest@.len(),
            {
                let x = rest.remove(0);
                proof {
                    assert(x == bargs[i as int]);
                    if !(x is Literal) {
                        let j = choose|j: int| 0 <= j < oargs.len() && bargs[i as int] == oargs[j];
                        assert(x == oargs[j]);
                    }
                }
                let walked = walk_expr(x, table, scopes, errors);
                proof {
                    assert(all_sources((i + 1) as nat).drop_last() =~= all_sources(i as nat));
                    assert(all_sources((i + 1) as nat).last() == Some(i as int));
                    assert(error_views(errors@) =~= func_errs + errs_sources(
                        bargs,
                        all_sources((i + 1) as nat),
                        table@,
                        sv,
                    ));
                }
                let ghost before_out = out@;
                out.push(walked);
                proof {
                    assert(out@.drop_last() =~= before_out);
                    assert(out@.last() == walked);
                }
                i = i + 1;
            }
            proof {
                lemma_every_call_in(out@, unlabelled_call());
                assert(all_sources(i as nat) == all_sources(bargs.len()));
            }
            Expr::Call { func: Box::new(func), type_args, args: out, arg_labels, span }
        },
        other => other,
    }
}

/// Whether `s` declares a temporary whose initializer the walk may visit: one of
/// `given`'s arguments, smaller than it.
pub open spec fn hoisted_init(s: Stmt, given: Expr) -> bool {
    s matches Stmt::VarDecl { init, .. } && init matches Some(v) && every_call(v, well_labelled_call())
        && size(v) < size(given)
}

/// Whether `s` is the bound call a hoisted `given` ends in: `given`'s own callee, with
/// no label, passing temporaries and inert arguments, which hold no call.
pub open spec fn hoisted_tail(s: Stmt, given: Expr) -> bool {
    match (s, given) {
        (Stmt::Expr(Expr::Call { func: f, args: passed, arg_labels, .. }), Expr::Call { func, .. }) => *f == *func
            && arg_labels@.len() == 0 && every_call_in(passed@, unlabelled_call()),
        _ => false,
    }
}

/// The shape of a hoisted call: temporaries initialized by the call's own arguments,
/// then the bound call on `given`'s callee.
proof fn lemma_hoisted_shape(bound: Expr, given: Expr)
    requires
        every_call(given, well_labelled_call()),
        hoisted_from(bound, given),
    ensures
        bound matches Expr::Block { stmts, .. } && stmts@.len() >= 1 && (forall|k: int|
            0 <= k < stmts@.len() - 1 ==> hoisted_init(#[trigger] stmts@[k], given))
            && hoisted_tail(stmts@.last(), given),
{
    if let Expr::Call { func, type_args, args, span, .. } = given {
        let (order, sig) = choose|order: Seq<usize>, sig: super::signatures::Signature|
            #[trigger] is_hoisted_block(bound, *func, type_args, args@, order, sig, span);
        let srcs = effect_sources(args@);
        lemma_every_call_in(args@, well_labelled_call());
        if let Expr::Block { stmts, .. } = bound {
            assert forall|k: int| 0 <= k < stmts@.len() - 1 implies hoisted_init(
                #[trigger] stmts@[k],
                given,
            ) by {
                assert(declares_temporary(
                    stmts@[k],
                    args@,
                    srcs[k],
                    slot_annotation(sig, slot_of(order, srcs[k])),
                ));
                Seq::new(args@.len(), |i: int| i).lemma_filter_pred(carries_effect(args@), k);
                let src = srcs[k];
                assert(0 <= src < args@.len());
                lemma_size_in(args@, src);
            }
            if let Stmt::Expr(call) = stmts@.last() {
                if let Expr::Call { args: passed, .. } = call {
                    assert forall|t: int| 0 <= t < passed@.len() implies every_call(
                        #[trigger] passed@[t],
                        unlabelled_call(),
                    ) by {
                        assert(passes_source(passed@[t], args@, order[t] as int));
                        if is_inert(args@[order[t] as int]) {
                            lemma_inert_has_no_call(args@[order[t] as int], unlabelled_call());
                        }
                    }
                    lemma_every_call_in(passed@, unlabelled_call());
                }
            }
        }
    }
}

/// Whether `s` declares a name initialized by `value`.
pub open spec fn initializes(s: Stmt, value: Expr) -> bool {
    s matches Stmt::VarDecl { init, .. } && init == Some(value)
}

/// The temporaries of a hoisted call, in order: one per effect-carrying argument, each
/// initialized by that argument.
proof fn lemma_hoisted_inits(bound: Expr, given: Expr)
    requires
        hoisted_from(bound, given),
    ensures
        given matches Expr::Call { args, .. } ==> (bound matches Expr::Block { stmts, .. } && stmts@.len()
            == effect_sources(args@).len() + 1 && forall|k: int|
            0 <= k < stmts@.len() - 1 ==> 0 <= #[trigger] effect_sources(args@)[k] < args@.len()
                && initializes(stmts@[k], args@[effect_sources(args@)[k]])),
{
    if let Expr::Call { func, type_args, args, span, .. } = given {
        let (order, sig) = choose|order: Seq<usize>, sig: Signature|
            #[trigger] is_hoisted_block(bound, *func, type_args, args@, order, sig, span);
        let srcs = effect_sources(args@);
        if let Expr::Block { stmts, .. } = bound {
            assert forall|k: int| 0 <= k < stmts@.len() - 1 implies 0 <= #[trigger] srcs[k] < args@.len()
                && initializes(stmts@[k], args@[srcs[k]]) by {
                assert(declares_temporary(
                    stmts@[k],
                    args@,
                    srcs[k],
                    slot_annotation(sig, slot_of(order, srcs[k])),
                ));
                Seq::new(args@.len(), |i: int| i).lemma_filter_pred(carries_effect(args@), k);
            }
        }
    }
}

/// Walk on through a hoisted call: the temporaries' initializers, then the callee of
/// the call the block ends with, whose arguments are already bound.
fn walk_hoisted(
    Ghost(given): Ghost<Expr>,
    Ghost(start): Ghost<nat>,
    bound: Expr,
    table: &SignatureTable,
    scopes: &mut Vec<Vec<String>>,
    errors: &mut Vec<ArgumentError>,
) -> (r: Expr)
    requires
        table.wf(),
        every_call(given, well_labelled_call()),
        hoisted_from(bound, given),
        old(errors)@.len() >= start,
    ensures
        final(errors)@.len() >= old(errors)@.len(),
        final(errors)@.len() == start ==> every_call(r, unlabelled_call()),
        given matches Expr::Call { func, args, .. } ==> error_views(final(errors)@) == error_views(old(errors)@)
            + errs_sources(args@, effect_sources(args@).map_values(|s: int| Some(s)), table@, scopes_view(old(scopes)@))
            + errs_expr(*func, table@, scopes_view(old(scopes)@)),
        scopes_view(final(scopes)@) == scopes_view(old(scopes)@),
        same_block_shape(bound, r),
        given matches Expr::Call { func, args, .. } ==> (r matches Expr::Block { stmts: rst, .. } && rst@.len()
            == effect_sources(args@).len() + 1 && rewrites_temporaries(
            args@,
            effect_sources(args@),
            rst@,
            table@,
            scopes_view(old(scopes)@),
        ) && match rst@.last() {
            Stmt::Expr(Expr::Call { func: rf, .. }) => rewrites_expr(*func, *rf, table@, scopes_view(old(scopes)@)),
            _ => false,
        }),
    decreases size(given), 0nat,
{
    proof {
        lemma_hoisted_shape(bound, given);
        lemma_hoisted_inits(bound, given);
    }
    let ghost before = error_views(errors@);
    let ghost sv = scopes_view(scopes@);
    let ghost gargs = match given {
        Expr::Call { args, .. } => args@,
        _ => Seq::empty(),
    };
    let ghost gfunc = match given {
        Expr::Call { func, .. } => *func,
        _ => given,
    };
    let ghost srcs = effect_sources(gargs);
    let ghost opts = srcs.map_values(|s: int| Some(s));
    match bound {
        Expr::Block { stmts, span } => {
            let ghost bstmts = stmts@;
            let ghost entry = errors@.len();
            let n = stmts.len();
            let mut rest = stmts;
            let mut out: Vec<Stmt> = Vec::new();
            let mut i: usize = 0;
            while rest.len() > 1
                invariant
                    table.wf(),
                    n == bstmts.len(),
                    n >= 1,
                    i + rest@.len() == n,
                    rest@ == bstmts.subrange(i as int, n as int),
                    out@.len() == i,
                    entry >= start,
                    errors@.len() >= entry,
                    forall|k: int| 0 <= k < n - 1 ==> hoisted_init(#[trigger] bstmts[k], given),
                    hoisted_tail(bstmts[n - 1], given),
                    errors@.len() == start ==> forall|k: int|
                        0 <= k < i ==> every_call_stmt(#[trigger] out@[k], unlabelled_call()),
                    given is Call,
                    gargs == given->args@,
                    srcs == effect_sources(gargs),
                    opts == srcs.map_values(|s: int| Some(s)),
                    n == srcs.len() + 1,
                    forall|k: int|
                        0 <= k < n - 1 ==> 0 <= #[trigger] srcs[k] < gargs.len() && initializes(
                            bstmts[k],
                            gargs[srcs[k]],
                        ),
                    error_views(errors@) == before + errs_sources(gargs, opts.take(i as int), table@, sv),
                    scopes_view(scopes@) == sv,
                    forall|k: int| 0 <= k < i ==> same_declaration(#[trigger] bstmts[k], out@[k]),
                    rewrites_temporaries(gargs, srcs.take(i as int), out@, table@, sv),
                decreases rest@.len(),
            {
                let x = rest.remove(0);
                proof {
                    assert(x == bstmts[i as int]);
                }
                let walked = match x {
                    Stmt::VarDecl { name, ty, init, mutable, span } => {
                        let init = match init {
                            Some(v) => Some(walk_expr(v, table, scopes, errors)),
                            None => None,
                        };
                        Stmt::VarDecl { name, ty, init, mutable, span }
                    },
                    other => other,
                };
                proof {
                    let src = srcs[i as int];
                    assert(opts.take(i + 1).drop_last() =~= opts.take(i as int));
                    assert(opts.take(i + 1).last() == Some(src));
                    assert(error_views(errors@) =~= before + errs_sources(gargs, opts.take(i + 1), table@, sv));
                }
                let ghost before_out = out@;
                out.push(walked);
                proof {
                    lemma_temporaries_frame(gargs, srcs.take(i as int), before_out, out@, table@, sv);
                    let next = srcs.take(i + 1);
                    assert(next.drop_last() =~= srcs.take(i as int));
                    assert(next[i as int] == srcs[i as int]);
                    assert(out@[i as int] == walked);
                }
                i = i + 1;
            }
            let last = rest.remove(0);
            proof {
                assert(last == bstmts[n - 1]);
                assert(opts.take(n - 1) =~= opts);
                assert(srcs.take(n - 1) =~= srcs);
            }
            let ghost mid = error_views(errors@);
            let ghost mid_len = errors@.len();
            let tail = match last {
                Stmt::Expr(Expr::Call { func, type_args, args, arg_labels, span: cs }) => {
                    proof {
                        assert(*func == gfunc);
                        assert(size(gfunc) < size(given));
                        lemma_every_call_in(Seq::<Expr>::empty(), unlabelled_call());
                    }
                    let func = walk_expr(*func, table, scopes, errors);
                    Stmt::Expr(Expr::Call { func: Box::new(func), type_args, args, arg_labels, span: cs })
                },
                other => other,
            };
            let ghost before_out = out@;
            out.push(tail);
            proof {
                lemma_temporaries_frame(gargs, srcs, before_out, out@, table@, sv);
                assert(error_views(errors@) =~= before + errs_sources(gargs, opts, table@, sv) + errs_expr(
                    gfunc,
                    table@,
                    sv,
                ));
                assert(forall|k: int| 0 <= k < n - 1 ==> out@[k] == before_out[k]);
                lemma_every_call_stmts(out@, unlabelled_call());
            }
            Expr::Block { stmts: out, span }
        },
        other => other,
    }
}

/// The names a body starts with: its parameters, then `self` for an instance method.
fn body_scope(params: &Vec<Parameter>, has_self: bool) -> (names: Vec<String>)
    ensures
        names@.len() == params@.len() + if has_self { 1int } else { 0int },
        forall|i: int| 0 <= i < params@.len() ==> #[trigger] names@[i]@ == params@[i].name.name@,
        has_self ==> names@[params@.len() as int]@ == "self"@,
        names@.map_values(|n: String| n@) == body_names(params@, has_self),
{
    let mut names: Vec<String> = Vec::new();
    let mut i: usize = 0;
    while i < params.len()
        invariant
            i <= params@.len(),
            names@.len() == i,
            forall|k: int| 0 <= k < i ==> #[trigger] names@[k]@ == params@[k].name.name@,
        decreases params@.len() - i,
    {
        names.push(params[i].name.name.clone());
        i = i + 1;
    }
    if has_self {
        names.push(String::from_str("self"));
    }
    proof {
        reveal_strlit("self");
        let base = params@.map_values(|p: Parameter| p.name.name@);
        if has_self {
            assert(names@.map_values(|n: String| n@) =~= base.push("self"@));
        } else {
            assert(names@.map_values(|n: String| n@) =~= base);
        }
    }
    names
}

/// Bind every call in a function or method body, with its parameters in scope.
pub fn walk_body(
    params: &Vec<Parameter>,
    has_self: bool,
    body: Vec<Stmt>,
    table: &SignatureTable,
    scopes: &mut Vec<Vec<String>>,
    errors: &mut Vec<ArgumentError>,
) -> (r: Vec<Stmt>)
    requires
        table.wf(),
        every_call_stmts(body@, well_labelled_call()),
    ensures
        final(errors)@.len() >= old(errors)@.len(),
        final(errors)@.len() == old(errors)@.len() ==> every_call_stmts(r@, unlabelled_call()),
        requires_no_label(table@) && every_call_stmts(body@, unlabelled_call()) ==> final(errors)@.len()
            == old(errors)@.len(),
        error_views(final(errors)@) == error_views(old(errors)@) + errs_body(
            params@,
            has_self,
            body@,
            table@,
            scopes_view(old(scopes)@),
        ),
        scopes_view(final(scopes)@) == scopes_view(old(scopes)@),
        rewrites_body(params@, has_self, body@, r@, table@, scopes_view(old(scopes)@)),
{
    let ghost sv = scopes_view(scopes@);
    let ghost gb = body@;
    let names = body_scope(params, has_self);
    scopes.push(names);
    let ghost opened = sv.push(body_names(params@, has_self));
    assert(scopes_view(scopes@) =~= opened);
    let body = walk_stmts(body, table, scopes, errors);
    let ghost inner = scopes_view(scopes@);
    let _ = scopes.pop();
    proof {
        lemma_scope_after_keeps_outer(opened, gb);
        assert(scopes_view(scopes@) =~= inner.drop_last());
        assert(opened.drop_last() =~= sv);
    }
    body
}

/// Bind every call in the bodies of `methods`; a method without a body holds none.
pub fn walk_methods(
    methods: Vec<MethodDef>,
    table: &SignatureTable,
    scopes: &mut Vec<Vec<String>>,
    errors: &mut Vec<ArgumentError>,
) -> (r: Vec<MethodDef>)
    requires
        table.wf(),
        every_call_methods(methods@, well_labelled_call()),
    ensures
        final(errors)@.len() >= old(errors)@.len(),
        final(errors)@.len() == old(errors)@.len() ==> every_call_methods(r@, unlabelled_call()),
        requires_no_label(table@) && every_call_methods(methods@, unlabelled_call())
            ==> final(errors)@.len() == old(errors)@.len(),
        error_views(final(errors)@) == error_views(old(errors)@) + errs_methods(methods@, table@, scopes_view(old(scopes)@)),
        scopes_view(final(scopes)@) == scopes_view(old(scopes)@),
        rewrites_methods(methods@, r@, table@, scopes_view(old(scopes)@)),
{
    let ghost given = methods@;
    let ghost start = errors@.len();
    let ghost before = error_views(errors@);
    let ghost sv = scopes_view(scopes@);
    assert(given.take(0) =~= Seq::<MethodDef>::empty());
    assert(before + errs_methods(given.take(0), table@, sv) =~= before);
    let ghost quiet = requires_no_label(table@) && every_call_methods(given, unlabelled_call());
    proof {
        lemma_every_call_methods(given, well_labelled_call());
        lemma_every_call_methods(given, unlabelled_call());
    }
    let n = methods.len();
    let mut rest = methods;
    let mut out: Vec<MethodDef> = Vec::new();
    let mut i: usize = 0;
    while rest.len() > 0
        invariant
            table.wf(),
            n == given.len(),
            i + rest@.len() == n,
            rest@ == given.subrange(i as int, n as int),
            out@.len() == i,
            errors@.len() >= start,
            forall|k: int| 0 <= k < n ==> every_call_method(#[trigger] given[k], well_labelled_call()),
            quiet ==> requires_no_label(table@) && errors@.len() == start && forall|k: int|
                0 <= k < n ==> every_call_method(#[trigger] given[k], unlabelled_call()),
            errors@.len() == start ==> forall|k: int|
                0 <= k < i ==> every_call_method(#[trigger] out@[k], unlabelled_call()),
            error_views(errors@) == before + errs_methods(given.take(i as int), table@, sv),
            scopes_view(scopes@) == sv,
            rewrites_methods(given.take(i as int), out@, table@, sv),
        decreases rest@.len(),
    {
        let m = rest.remove(0);
        proof {
            assert(m == given[i as int]);
        }
        let ghost prior = error_views(errors@);
        let MethodDef { name, has_self, params, body } = m;
        let body = match body {
            Some(stmts) => Some(walk_body(&params, has_self, stmts, table, scopes, errors)),
            None => None,
        };
        proof {
            assert(given.take(i + 1).drop_last() =~= given.take(i as int));
            assert(given.take(i + 1).last() == given[i as int]);
            assert(error_views(errors@) =~= before + errs_methods(given.take(i + 1), table@, sv));
        }
        let ghost before_out = out@;
        out.push(MethodDef { name, has_self, params, body });
        proof {
            assert(out@.drop_last() =~= before_out);
        }
        i = i + 1;
    }
    assert(given.take(n as int) =~= given);
    proof {
        lemma_every_call_methods(out@, unlabelled_call());
    }
    out
}

/// Bind every call in declaration `item`.
pub fn walk_item(
    item: Item,
    table: &SignatureTable,
    scopes: &mut Vec<Vec<String>>,
    errors: &mut Vec<ArgumentError>,
) -> (r: Item)
    requires
        table.wf(),
        every_call_item(item, well_labelled_call()),
    ensures
        final(errors)@.len() >= old(errors)@.len(),
        final(errors)@.len() == old(errors)@.len() ==> every_call_item(r, unlabelled_call()),
        requires_no_label(table@) && every_call_item(item, unlabelled_call()) ==> final(errors)@.len()
            == old(errors)@.len(),
        error_views(final(errors)@) == error_views(old(errors)@) + errs_item(item, table@, scopes_view(old(scopes)@)),
        scopes_view(final(scopes)@) == scopes_view(old(scopes)@),
        rewrites_item(item, r, table@, scopes_view(old(scopes)@)),
    decreases item,
{
    let ghost before = error_views(errors@);
    match item {
        Item::Function { name, params, where_predicates, body } => {
            let ghost (gw, gb) = (where_predicates@, body@);
            let ghost sv = scopes_view(scopes@);
            proof {
                lemma_every_call_in(where_predicates@, well_labelled_call());
                lemma_every_call_in(where_predicates@, unlabelled_call());
            }
            let where_predicates = walk_exprs(where_predicates, table, scopes, errors);
            let body = walk_body(&params, false, body, table, scopes, errors);
            assert(error_views(errors@) =~= before + (errs_sources(gw, all_sources(gw.len()), table@, sv)
                + errs_body(params@, false, gb, table@, sv)));
            Item::Function { name, params, where_predicates, body }
        },
        Item::Struct { name, where_predicates } => {
            proof {
                lemma_every_call_in(where_predicates@, well_labelled_call());
                lemma_every_call_in(where_predicates@, unlabelled_call());
            }
            let where_predicates = walk_exprs(where_predicates, table, scopes, errors);
            Item::Struct { name, where_predicates }
        },
        Item::Impl { owner, where_predicates, methods } => {
            let ghost (gw, gm) = (where_predicates@, methods@);
            let ghost sv = scopes_view(scopes@);
            proof {
                lemma_every_call_in(where_predicates@, well_labelled_call());
                lemma_every_call_in(where_predicates@, unlabelled_call());
            }
            let where_predicates = walk_exprs(where_predicates, table, scopes, errors);
            let methods = walk_methods(methods, table, scopes, errors);
            assert(error_views(errors@) =~= before + (errs_sources(gw, all_sources(gw.len()), table@, sv)
                + errs_methods(gm, table@, sv)));
            Item::Impl { owner, where_predicates, methods }
        },
        Item::Trait { name, methods } => {
            let methods = walk_methods(methods, table, scopes, errors);
            Item::Trait { name, methods }
        },
        Item::Const { name, value } => {
            let value = walk_expr(value, table, scopes, errors);
            Item::Const { name, value }
        },
        Item::Module { items } => {
            let items = walk_items(items, table, scopes, errors);
            Item::Module { items }
        },
        Item::Other => {
            assert(error_views(errors@) =~= before + Seq::<ArgumentErrorView>::empty());
            Item::Other
        },
    }
}

/// Bind every call in the declarations `items`, in order.
#[verifier::loop_isolation(false)]
pub fn walk_items(
    items: Vec<Item>,
    table: &SignatureTable,
    scopes: &mut Vec<Vec<String>>,
    errors: &mut Vec<ArgumentError>,
) -> (r: Vec<Item>)
    requires
        table.wf(),
        every_call_items(items@, well_labelled_call()),
    ensures
        final(errors)@.len() >= old(errors)@.len(),
        final(errors)@.len() == old(errors)@.len() ==> every_call_items(r@, unlabelled_call()),
        requires_no_label(table@) && every_call_items(items@, unlabelled_call()) ==> final(errors)@.len()
            == old(errors)@.len(),
        error_views(final(errors)@) == error_views(old(errors)@) + errs_items(items@, table@, scopes_view(old(scopes)@)),
        scopes_view(final(scopes)@) == scopes_view(old(scopes)@),
        rewrites_items(items@, r@, table@, scopes_view(old(scopes)@)),
    decreases items@,
{
    let ghost given = items@;
    let ghost start = errors@.len();
    let ghost before = error_views(errors@);
    let ghost sv = scopes_view(scopes@);
    assert(given.take(0) =~= Seq::<Item>::empty());
    assert(before + errs_items(given.take(0), table@, sv) =~= before);
    let ghost quiet = requires_no_label(table@) && every_call_items(given, unlabelled_call());
    proof {
        lemma_every_call_items(given, well_labelled_call());
        lemma_every_call_items(given, unlabelled_call());
    }
    let n = items.len();
    let mut rest = items;
    let mut out: Vec<Item> = Vec::new();
    let mut i: usize = 0;
    while rest.len() > 0
        invariant
            table.wf(),
            n == given.len(),
            i + rest@.len() == n,
            rest@ == given.subrange(i as int, n as int),
            out@.len() == i,
            errors@.len() >= start,
            forall|k: int| 0 <= k < n ==> every_call_item(#[trigger] given[k], well_labelled_call()),
            quiet ==> requires_no_label(table@) && errors@.len() == start && forall|k: int|
                0 <= k < n ==> every_call_item(#[trigger] given[k], unlabelled_call()),
            errors@.len() == start ==> forall|k: int|
                0 <= k < i ==> every_call_item(#[trigger] out@[k], unlabelled_call()),
            error_views(errors@) == before + errs_items(given.take(i as int), table@, sv),
            scopes_view(scopes@) == sv,
            rewrites_items(given.take(i as int), out@, table@, sv),
        decreases rest@.len(),
    {
        let x = rest.remove(0);
        proof {
            assert(x == given[i as int]);
            assert(decreases_to!(given => given[i as int]));
        }
        let walked = walk_item(x, table, scopes, errors);
        proof {
            assert(given.take(i + 1).drop_last() =~= given.take(i as int));
            assert(given.take(i + 1)[i as int] == given[i as int]);
            assert(error_views(errors@) =~= before + errs_items(given.take(i + 1), table@, sv));
        }
        let ghost before_out = out@;
        out.push(walked);
        proof {
            assert(out@.drop_last() =~= before_out);
            assert(out@[i as int] == walked);
        }
        i = i + 1;
    }
    assert(given.take(n as int) =~= given);
    proof {
        lemma_every_call_items(out@, unlabelled_call());
    }
    out
}

} // verus!
