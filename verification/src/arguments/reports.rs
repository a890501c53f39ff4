//! Which errors binding a whole program reports, and in which order: each call's own
//! error, outermost first, then the errors of what binding the call leaves to walk on
//! through, with the local names in scope where each call stands.

use vstd::prelude::*;

use super::ast::{Expr, Identifier, Item, MatchArm, MethodDef, Stmt};
use super::binding::{binding_outcome, BindingPlanView};
use super::calls::{arg_spans, callee_name, callee_lookup, effect_sources, first_label_spec, ident_label_views};
use super::errors::{ArgumentError, ArgumentErrorView};
use super::hoisting::{callee_allows_hoisting, reorders_effects_spec};
use super::signatures::{LookupView, ParamView, Parameter, TableView};
use super::walk::{in_scope, lemma_size_arms, lemma_size_in, lemma_size_stmts, size, size_arms, size_in, size_stmt, size_stmts};

verus! {

/// The open scopes, innermost last, each as the names it binds.
pub open spec fn scopes_view(scopes: Seq<Vec<String>>) -> Seq<Seq<Seq<char>>> {
    scopes.map_values(|scope: Vec<String>| scope@.map_values(|name: String| name@))
}

/// Whether `name` is bound in one of the open scopes.
pub open spec fn visible(scopes: Seq<Seq<Seq<char>>>, name: Seq<char>) -> bool {
    exists|i: int, j: int| 0 <= i < scopes.len() && 0 <= j < scopes[i].len() && #[trigger] scopes[i][j] == name
}

/// The scopes with `name` brought into the innermost one; none is open, nothing.
pub open spec fn bind_into(scopes: Seq<Seq<Seq<char>>>, name: Seq<char>) -> Seq<Seq<Seq<char>>> {
    if scopes.len() == 0 {
        scopes
    } else {
        scopes.update(scopes.len() - 1, scopes.last().push(name))
    }
}

/// The scopes with each of `names` brought into the innermost one, in order.
pub open spec fn bind_all(scopes: Seq<Seq<Seq<char>>>, names: Seq<Identifier>) -> Seq<Seq<Seq<char>>>
    decreases names.len(),
{
    if names.len() == 0 {
        scopes
    } else {
        bind_into(bind_all(scopes, names.drop_last()), names.last().name@)
    }
}

/// The names of `ids`, in order.
pub open spec fn id_names(ids: Seq<Identifier>) -> Seq<Seq<char>> {
    ids.map_values(|id: Identifier| id.name@)
}

/// The names a body starts with: its parameters, then `self` for an instance method.
pub open spec fn body_names(params: Seq<Parameter>, has_self: bool) -> Seq<Seq<char>> {
    let names = params.map_values(|p: Parameter| p.name.name@);
    if has_self {
        names.push("self"@)
    } else {
        names
    }
}

/// The scopes after statement `s`: a declaration brings its name into the innermost
/// scope, a `val ... else` its pattern's names.
pub open spec fn scope_after_stmt(scopes: Seq<Seq<Seq<char>>>, s: Stmt) -> Seq<Seq<Seq<char>>> {
    match s {
        Stmt::VarDecl { name, .. } => bind_into(scopes, name.name@),
        Stmt::ValElse { pattern, .. } => bind_all(scopes, pattern@),
        _ => scopes,
    }
}

/// The scopes after the statements `ss`, in order.
pub open spec fn scope_after_stmts(scopes: Seq<Seq<Seq<char>>>, ss: Seq<Stmt>) -> Seq<Seq<Seq<char>>>
    decreases ss.len(),
{
    if ss.len() == 0 {
        scopes
    } else {
        scope_after_stmt(scope_after_stmts(scopes, ss.drop_last()), ss.last())
    }
}

/// Whether the callee `func` is a bare name a local binding holds.
pub open spec fn callee_is_local(func: Expr, scopes: Seq<Seq<Seq<char>>>) -> bool {
    match func {
        Expr::Identifier(id) => visible(scopes, id.name@),
        _ => false,
    }
}

/// The error of the call `e` itself, if it cannot be bound: a rule of its known callee
/// that it breaks, or a label where the callee declares no names or several.
pub open spec fn own_error(e: Expr, t: TableView, local: bool) -> Option<ArgumentErrorView> {
    match e {
        Expr::Call { func, args, arg_labels, span, .. } => match callee_lookup(*func, t, local) {
            LookupView::Known(params) => match binding_outcome(
                ident_label_views(arg_labels@),
                args@.len() as int,
                params,
                callee_name(*func),
                span,
                arg_spans(args@),
            ) {
                Err(error) => Some(error),
                Ok(_) => None,
            },
            LookupView::Unknown => match first_label_spec(arg_labels@) {
                Some(_) => Some(ArgumentErrorView::LabelsUnsupported { callee: callee_name(*func), span }),
                None => None,
            },
            LookupView::Ambiguous => match first_label_spec(arg_labels@) {
                Some(label) => Some(
                    ArgumentErrorView::AmbiguousMethodLabels { callee: callee_name(*func), label, span },
                ),
                None => None,
            },
        },
        _ => None,
    }
}

/// Every argument, in the order written.
pub open spec fn all_sources(n: nat) -> Seq<Option<int>> {
    Seq::new(n, |i: int| Some(i))
}

/// Whether a plan gives every slot a written argument.
pub open spec fn plan_full(plan: Seq<Option<int>>) -> bool {
    forall|t: int| 0 <= t < plan.len() ==> #[trigger] plan[t] is Some
}

/// The source of each slot of a full plan.
pub open spec fn plan_sources(plan: Seq<Option<int>>) -> Seq<usize> {
    plan.map_values(|o: Option<int>| (o->Some_0) as usize)
}

/// How the walk goes on through a call once it is bound: the callee and then the
/// arguments each slot takes (`None`: a default, which holds no call), or, for a call
/// hoisted into temporaries, the temporaries' initializers, in written order, and then
/// the callee.
pub enum Continuation {
    Parts(Seq<Option<int>>),
    Temporaries(Seq<int>),
}

/// How the walk goes on through the call `e`, which binds without error.
pub open spec fn continuation(e: Expr, t: TableView, local: bool) -> Continuation {
    match e {
        Expr::Call { func, args, arg_labels, span, .. } => match callee_lookup(*func, t, local) {
            LookupView::Known(params) => match binding_outcome(
                ident_label_views(arg_labels@),
                args@.len() as int,
                params,
                callee_name(*func),
                span,
                arg_spans(args@),
            ) {
                Ok(BindingPlanView::Slots(plan)) => if plan_full(plan) && reorders_effects_spec(
                    plan_sources(plan),
                    args@,
                ) && callee_allows_hoisting(*func) {
                    Continuation::Temporaries(effect_sources(args@))
                } else {
                    Continuation::Parts(plan)
                },
                _ => Continuation::Parts(all_sources(args@.len())),
            },
            _ => Continuation::Parts(all_sources(args@.len())),
        },
        _ => Continuation::Parts(Seq::empty()),
    }
}

/// The rules the callee `func` declares: its parameters where it is known, none
/// otherwise.
pub open spec fn callee_params(func: Expr, t: TableView, local: bool) -> Seq<ParamView> {
    match callee_lookup(func, t, local) {
        LookupView::Known(params) => params,
        _ => Seq::empty(),
    }
}

/// The declaration order the call `e` binds its arguments in: the source each slot of
/// its plan takes.
pub open spec fn bound_order(e: Expr, t: TableView, local: bool) -> Seq<usize> {
    match e {
        Expr::Call { func, args, arg_labels, span, .. } => match binding_outcome(
            ident_label_views(arg_labels@),
            args@.len() as int,
            callee_params(*func, t, local),
            callee_name(*func),
            span,
            arg_spans(args@),
        ) {
            Ok(BindingPlanView::Slots(plan)) => plan_sources(plan),
            _ => Seq::empty(),
        },
        _ => Seq::empty(),
    }
}

/// The errors of the arguments `args` at `sources`, in that order.
pub open spec fn errs_sources(
    args: Seq<Expr>,
    sources: Seq<Option<int>>,
    t: TableView,
    scopes: Seq<Seq<Seq<char>>>,
) -> Seq<ArgumentErrorView>
    decreases size_in(args), 3nat, sources.len(),
{
    if sources.len() == 0 {
        Seq::empty()
    } else {
        let prior = errs_sources(args, sources.drop_last(), t, scopes);
        match sources.last() {
            Some(s) => if 0 <= s < args.len() {
                proof {
                    lemma_size_in(args, s);
                }
                prior + errs_expr(args[s], t, scopes)
            } else {
                prior
            },
            None => prior,
        }
    }
}

/// The errors binding the call `e` reports: its own, then those of what the walk goes
/// on through.
pub open spec fn errs_call(e: Expr, t: TableView, scopes: Seq<Seq<Seq<char>>>) -> Seq<ArgumentErrorView>
    decreases size(e), 1nat, 0nat,
{
    match e {
        Expr::Call { func, args, .. } => {
            let local = callee_is_local(*func, scopes);
            match own_error(e, t, local) {
                Some(x) => seq![x] + errs_expr(*func, t, scopes) + errs_sources(
                    args@,
                    all_sources(args@.len()),
                    t,
                    scopes,
                ),
                None => match continuation(e, t, local) {
                    Continuation::Parts(sources) => errs_expr(*func, t, scopes) + errs_sources(
                        args@,
                        sources,
                        t,
                        scopes,
                    ),
                    Continuation::Temporaries(sources) => errs_sources(
                        args@,
                        sources.map_values(|s: int| Some(s)),
                        t,
                        scopes,
                    ) + errs_expr(*func, t, scopes),
                },
            }
        },
        _ => Seq::empty(),
    }
}

/// The errors binding every call in `e` reports, in the order the walk meets them.
pub open spec fn errs_expr(e: Expr, t: TableView, scopes: Seq<Seq<Seq<char>>>) -> Seq<ArgumentErrorView>
    decreases size(e), 2nat, 0nat,
{
    match e {
        Expr::Call { .. } => errs_call(e, t, scopes),
        Expr::FieldAccess { object, .. } => errs_expr(*object, t, scopes),
        Expr::TupleIndex { object, .. } => errs_expr(*object, t, scopes),
        Expr::Index { object, index, .. } => errs_expr(*object, t, scopes) + errs_expr(*index, t, scopes),
        Expr::Deref { operand, .. } => errs_expr(*operand, t, scopes),
        Expr::Paren(inner, _) => errs_expr(*inner, t, scopes),
        Expr::Cast { expr, .. } => errs_expr(*expr, t, scopes),
        Expr::Block { stmts, .. } => errs_stmts(stmts@, t, scopes.push(Seq::empty())),
        Expr::Closure { params, body, .. } => errs_expr(*body, t, scopes.push(id_names(params@))),
        Expr::Match { scrutinee, arms, .. } => errs_expr(*scrutinee, t, scopes) + errs_arms(arms@, t, scopes),
        Expr::Other { parts, .. } => errs_sources(parts@, all_sources(parts@.len()), t, scopes),
        _ => Seq::empty(),
    }
}

/// The errors of the arms of a `match`, in order, each with its bindings in scope.
pub open spec fn errs_arms(arms: Seq<MatchArm>, t: TableView, scopes: Seq<Seq<Seq<char>>>) -> Seq<
    ArgumentErrorView,
>
    decreases size_arms(arms), 3nat, arms.len(),
{
    if arms.len() == 0 {
        Seq::empty()
    } else {
        let a = arms[arms.len() - 1];
        let inner = scopes.push(id_names(a.bindings@));
        proof {
            lemma_size_arms(arms, arms.len() - 1);
        }
        errs_arms(arms.subrange(0, arms.len() - 1), t, scopes) + match a.guard {
            Some(g) => errs_expr(g, t, inner),
            None => Seq::empty(),
        } + errs_expr(a.body, t, inner)
    }
}

/// The errors of statement `s`.
pub open spec fn errs_stmt(s: Stmt, t: TableView, scopes: Seq<Seq<Seq<char>>>) -> Seq<ArgumentErrorView>
    decreases size_stmt(s), 2nat, 0nat,
{
    match s {
        Stmt::VarDecl { init, .. } => match init {
            Some(x) => errs_expr(x, t, scopes),
            None => Seq::empty(),
        },
        Stmt::Loop { header, bound, body, .. } => errs_sources(header@, all_sources(header@.len()), t, scopes)
            + errs_stmts(body@, t, scopes.push(id_names(bound@))),
        Stmt::ValElse { value, else_binding, else_block, .. } => errs_expr(value, t, scopes) + errs_stmts(
            else_block@,
            t,
            scopes.push(
                match else_binding {
                    Some(b) => seq![b.name@],
                    None => Seq::empty(),
                },
            ),
        ),
        Stmt::Expr(x) => errs_expr(x, t, scopes),
    }
}

/// The errors of the statements `ss`, in order, each with the names the earlier ones
/// declared in scope.
pub open spec fn errs_stmts(ss: Seq<Stmt>, t: TableView, scopes: Seq<Seq<Seq<char>>>) -> Seq<ArgumentErrorView>
    decreases size_stmts(ss), 3nat, ss.len(),
{
    if ss.len() == 0 {
        Seq::empty()
    } else {
        let init = ss.subrange(0, ss.len() - 1);
        proof {
            lemma_size_stmts(ss, ss.len() - 1);
        }
        errs_stmts(init, t, scopes) + errs_stmt(ss[ss.len() - 1], t, scope_after_stmts(scopes, init))
    }
}

/// The errors of a function or method body, with its parameters in scope.
pub open spec fn errs_body(
    params: Seq<Parameter>,
    has_self: bool,
    body: Seq<Stmt>,
    t: TableView,
    scopes: Seq<Seq<Seq<char>>>,
) -> Seq<ArgumentErrorView> {
    errs_stmts(body, t, scopes.push(body_names(params, has_self)))
}

/// The errors of the bodies of `methods`, in order.
pub open spec fn errs_methods(ms: Seq<MethodDef>, t: TableView, scopes: Seq<Seq<Seq<char>>>) -> Seq<
    ArgumentErrorView,
>
    decreases ms.len(),
{
    if ms.len() == 0 {
        Seq::empty()
    } else {
        let m = ms.last();
        errs_methods(ms.drop_last(), t, scopes) + match m.body {
            Some(body) => errs_body(m.params@, m.has_self, body@, t, scopes),
            None => Seq::empty(),
        }
    }
}

/// The errors of declaration `item`.
pub open spec fn errs_item(item: Item, t: TableView, scopes: Seq<Seq<Seq<char>>>) -> Seq<ArgumentErrorView>
    decreases item,
{
    match item {
        Item::Function { params, where_predicates, body, .. } => errs_sources(
            where_predicates@,
            all_sources(where_predicates@.len()),
            t,
            scopes,
        ) + errs_body(params@, false, body@, t, scopes),
        Item::Struct { where_predicates, .. } => errs_sources(
            where_predicates@,
            all_sources(where_predicates@.len()),
            t,
            scopes,
        ),
        Item::Impl { where_predicates, methods, .. } => errs_sources(
            where_predicates@,
            all_sources(where_predicates@.len()),
            t,
            scopes,
        ) + errs_methods(methods@, t, scopes),
        Item::Trait { methods, .. } => errs_methods(methods@, t, scopes),
        Item::Const { value, .. } => errs_expr(value, t, scopes),
        Item::Module { items } => errs_items(items@, t, scopes),
        Item::Other => Seq::empty(),
    }
}

/// The errors of the declarations `items`, in order.
pub open spec fn errs_items(items: Seq<Item>, t: TableView, scopes: Seq<Seq<Seq<char>>>) -> Seq<ArgumentErrorView>
    decreases items,
{
    if items.len() == 0 {
        Seq::empty()
    } else {
        proof {
            assert(decreases_to!(items => items[items.len() - 1]));
        }
        errs_items(items.drop_last(), t, scopes) + errs_item(items[items.len() - 1], t, scopes)
    }
}

/// The views of a list of errors.
pub open spec fn error_views(errors: Seq<ArgumentError>) -> Seq<ArgumentErrorView> {
    errors.map_values(|e: ArgumentError| e@)
}

/// A name is in scope exactly when the scopes' names show it.
pub proof fn lemma_visible(scopes: Seq<Vec<String>>, name: Seq<char>)
    ensures
        in_scope(scopes, name) == visible(scopes_view(scopes), name),
{
    let view = scopes_view(scopes);
    if in_scope(scopes, name) {
        let (i, j) = choose|i: int, j: int|
            0 <= i < scopes.len() && 0 <= j < scopes[i]@.len() && #[trigger] scopes[i]@[j]@ == name;
        assert(view[i][j] == name);
    }
    if visible(view, name) {
        let (i, j) = choose|i: int, j: int| 0 <= i < view.len() && 0 <= j < view[i].len() && #[trigger] view[i][j] == name;
        assert(scopes[i]@[j]@ == name);
    }
}

/// Bringing names into the innermost scope leaves the others, and their number, alone.
pub proof fn lemma_bind_all_keeps_outer(scopes: Seq<Seq<Seq<char>>>, names: Seq<Identifier>)
    ensures
        bind_all(scopes, names).len() == scopes.len(),
        scopes.len() > 0 ==> bind_all(scopes, names).drop_last() == scopes.drop_last(),
    decreases names.len(),
{
    if names.len() > 0 {
        lemma_bind_all_keeps_outer(scopes, names.drop_last());
        let prior = bind_all(scopes, names.drop_last());
        if scopes.len() > 0 {
            assert(bind_into(prior, names.last().name@).drop_last() =~= prior.drop_last());
        }
    }
}

/// A statement changes only the innermost scope.
pub proof fn lemma_scope_after_stmt_keeps_outer(scopes: Seq<Seq<Seq<char>>>, s: Stmt)
    ensures
        scope_after_stmt(scopes, s).len() == scopes.len(),
        scopes.len() > 0 ==> scope_after_stmt(scopes, s).drop_last() == scopes.drop_last(),
{
    match s {
        Stmt::VarDecl { name, .. } => {
            if scopes.len() > 0 {
                assert(bind_into(scopes, name.name@).drop_last() =~= scopes.drop_last());
            }
        },
        Stmt::ValElse { pattern, .. } => lemma_bind_all_keeps_outer(scopes, pattern@),
        _ => {},
    }
}

/// Statements change only the innermost scope.
pub proof fn lemma_scope_after_keeps_outer(scopes: Seq<Seq<Seq<char>>>, ss: Seq<Stmt>)
    ensures
        scope_after_stmts(scopes, ss).len() == scopes.len(),
        scopes.len() > 0 ==> scope_after_stmts(scopes, ss).drop_last() == scopes.drop_last(),
    decreases ss.len(),
{
    if ss.len() > 0 {
        lemma_scope_after_keeps_outer(scopes, ss.drop_last());
        lemma_scope_after_stmt_keeps_outer(scope_after_stmts(scopes, ss.drop_last()), ss.last());
    }
}

/// Walking a call's arguments as binding arranged them reports what walking the written
/// arguments at the plan's sources does: a slot a default fills holds no call.
pub proof fn lemma_arranged_errs(
    bound: Seq<Expr>,
    args: Seq<Expr>,
    sources: Seq<Option<int>>,
    t: TableView,
    scopes: Seq<Seq<Seq<char>>>,
    k: int,
)
    requires
        bound.len() == sources.len(),
        0 <= k <= bound.len(),
        forall|i: int|
            0 <= i < bound.len() ==> match #[trigger] sources[i] {
                Some(s) => 0 <= s < args.len() && bound[i] == args[s],
                None => bound[i] is Literal,
            },
    ensures
        errs_sources(bound, all_sources(k as nat), t, scopes) == errs_sources(args, sources.take(k), t, scopes),
    decreases k,
{
    if k > 0 {
        lemma_arranged_errs(bound, args, sources, t, scopes, k - 1);
        assert(all_sources(k as nat).drop_last() =~= all_sources((k - 1) as nat));
        assert(sources.take(k).drop_last() =~= sources.take(k - 1));
        assert(all_sources(k as nat).last() == Some(k - 1));
        assert(sources.take(k).last() == sources[k - 1]);
        let prior_b = errs_sources(bound, all_sources((k - 1) as nat), t, scopes);
        assert(errs_sources(bound, all_sources(k as nat), t, scopes) == prior_b + errs_expr(bound[k - 1], t, scopes));
        match sources[k - 1] {
            Some(s) => {
                assert(bound[k - 1] == args[s]);
            },
            None => {
                assert(bound[k - 1] is Literal);
                assert(errs_expr(bound[k - 1], t, scopes) =~= Seq::<ArgumentErrorView>::empty());
                assert(prior_b + errs_expr(bound[k - 1], t, scopes) =~= prior_b);
            },
        }
    } else {
        assert(sources.take(0) =~= Seq::<Option<int>>::empty());
    }
}

} // verus!
