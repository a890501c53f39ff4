//! What binding a whole program rewrites it to: every call replaced by its bound form,
//! with the calls inside it bound in turn.
//!
//! A call that breaks a rule stays as written. A call bound in place passes, in
//! declaration order, the written argument each parameter takes (the call's own
//! rewrites of them) or the parameter's declared default, and writes no label. A hoisted
//! call becomes its block of temporaries, whose initializers are the rewritten
//! effect-carrying arguments in written order, ending in the bound call on the rewritten
//! callee.

use vstd::prelude::*;

use super::ast::{Expr, Identifier, Item, LiteralView, MatchArm, MethodDef, Stmt};
use super::errors::Span;
use super::calls::{callee_lookup, is_hoisted_block};
use super::reports::{
    all_sources, body_names, bound_order, callee_is_local, callee_params, continuation, id_names,
    own_error, scope_after_stmts, Continuation,
};
use super::signatures::{LookupView, ParamView, Parameter, Signature, TableView};
use super::walk::{takes_sources, lemma_size_arms, lemma_size_in, lemma_size_stmts, size, size_arms, size_in, size_stmt, size_stmts};

verus! {

/// Whether `r` is `e` with every call in it bound, the local names `scopes` in scope.
pub open spec fn rewrites_expr(e: Expr, r: Expr, t: TableView, scopes: Seq<Seq<Seq<char>>>) -> bool
    decreases size(e), 2nat, 0nat,
{
    match e {
        Expr::Call { .. } => rewrites_call(e, r, t, scopes),
        Expr::FieldAccess { object, field, span } => r matches Expr::FieldAccess { object: ro, field: rf, span: rs }
            && rf == field && rs == span && rewrites_expr(*object, *ro, t, scopes),
        Expr::TupleIndex { object, index, span } => r matches Expr::TupleIndex { object: ro, index: ri, span: rs }
            && ri == index && rs == span && rewrites_expr(*object, *ro, t, scopes),
        Expr::Index { object, index, span } => r matches Expr::Index { object: ro, index: ri, span: rs } && rs == span
            && rewrites_expr(*object, *ro, t, scopes) && rewrites_expr(*index, *ri, t, scopes),
        Expr::Deref { operand, span } => r matches Expr::Deref { operand: ro, span: rs } && rs == span
            && rewrites_expr(*operand, *ro, t, scopes),
        Expr::Paren(inner, span) => r matches Expr::Paren(ri, rs) && rs == span && rewrites_expr(*inner, *ri, t, scopes),
        Expr::Cast { expr, target, span } => r matches Expr::Cast { expr: re, target: rt, span: rs } && rt == target
            && rs == span && rewrites_expr(*expr, *re, t, scopes),
        Expr::Block { stmts, span } => r matches Expr::Block { stmts: rst, span: rs } && rs == span
            && rewrites_stmts(stmts@, rst@, t, scopes.push(Seq::empty())),
        Expr::Closure { params, body, span } => r matches Expr::Closure { params: rp, body: rb, span: rs } && rp
            == params && rs == span && rewrites_expr(*body, *rb, t, scopes.push(id_names(params@))),
        Expr::Match { scrutinee, arms, span } => r matches Expr::Match { scrutinee: rsc, arms: ra, span: rs } && rs
            == span && rewrites_expr(*scrutinee, *rsc, t, scopes) && rewrites_arms(arms@, ra@, t, scopes),
        Expr::Other { parts, span } => r matches Expr::Other { parts: rp, span: rs } && rs == span
            && rewrites_sources(parts@, all_sources(parts@.len()), rp@, t, scopes),
        _ => r == e,
    }
}

/// Whether `rs` are the rewrites of the arguments `args` at `sources`, in that order,
/// a literal where a source is `None`.
pub open spec fn rewrites_sources(
    args: Seq<Expr>,
    sources: Seq<Option<int>>,
    rs: Seq<Expr>,
    t: TableView,
    scopes: Seq<Seq<Seq<char>>>,
) -> bool
    decreases size_in(args), 3nat, sources.len(),
{
    &&& rs.len() == sources.len()
    &&& sources.len() == 0 || {
        &&& rewrites_sources(args, sources.drop_last(), rs.drop_last(), t, scopes)
        &&& match sources.last() {
            Some(s) => 0 <= s < args.len() && {
                proof {
                    lemma_size_in(args, s);
                }
                rewrites_expr(args[s], rs.last(), t, scopes)
            },
            None => rs.last() is Literal,
        }
    }
}

/// Whether the first `sources.len()` statements of `rs` declare temporaries initialized
/// by the rewrites of the arguments `args` at `sources`, in that order.
pub open spec fn rewrites_temporaries(
    args: Seq<Expr>,
    sources: Seq<int>,
    rs: Seq<Stmt>,
    t: TableView,
    scopes: Seq<Seq<Seq<char>>>,
) -> bool
    decreases size_in(args), 3nat, sources.len(),
{
    sources.len() == 0 || {
        let k = sources.len() - 1;
        let s = sources[k];
        &&& rewrites_temporaries(args, sources.drop_last(), rs, t, scopes)
        &&& k < rs.len()
        &&& 0 <= s < args.len()
        &&& match rs[k] {
            Stmt::VarDecl { init: Some(ri), .. } => {
                proof {
                    lemma_size_in(args, s);
                }
                rewrites_expr(args[s], ri, t, scopes)
            },
            _ => false,
        }
    }
}

/// Whether `r` declares what `b` declares, with whatever initializer.
pub open spec fn same_declaration(b: Stmt, r: Stmt) -> bool {
    match (b, r) {
        (
            Stmt::VarDecl { name: bn, ty: bt, mutable: bm, span: bs, .. },
            Stmt::VarDecl { name: rn, ty: rt, mutable: rm, span: rsp, .. },
        ) => bn == rn && bt == rt && bm == rm && bs == rsp,
        _ => false,
    }
}

/// Whether `r` is the call statement `b` with at most its callee changed.
pub open spec fn same_call_but_callee(b: Stmt, r: Stmt) -> bool {
    match (b, r) {
        (
            Stmt::Expr(Expr::Call { type_args: bt, args: ba, arg_labels: bl, span: bs, .. }),
            Stmt::Expr(Expr::Call { type_args: rt, args: ra, arg_labels: rl, span: rsp, .. }),
        ) => bt == rt && ba == ra && bl == rl && bs == rsp,
        _ => false,
    }
}

/// Whether the block `r` is the block `b` with only its temporaries' initializers and
/// the callee of the call it ends with changed.
pub open spec fn same_block_shape(b: Expr, r: Expr) -> bool {
    match (b, r) {
        (Expr::Block { stmts: bs, span: bsp }, Expr::Block { stmts: rs, span: rsp }) => {
            &&& bsp == rsp
            &&& bs@.len() == rs@.len()
            &&& bs@.len() >= 1
            &&& same_call_but_callee(bs@.last(), rs@.last())
            &&& forall|k: int| 0 <= k < bs@.len() - 1 ==> same_declaration(#[trigger] bs@[k], rs@[k])
        },
        _ => false,
    }
}

/// Whether a call bound without error keeps the labels `kept` of the written `labels`:
/// none where its callee is known, else the written ones, each of them absent.
pub open spec fn kept_labels(lookup: LookupView, labels: Seq<Option<Identifier>>, kept: Seq<Option<Identifier>>) -> bool {
    match lookup {
        LookupView::Known(_) => kept.len() == 0,
        _ => kept == labels && forall|i: int| 0 <= i < kept.len() ==> #[trigger] kept[i] is None,
    }
}

/// Whether `e` is the declared default `default`, written at `span`.
pub open spec fn is_default_literal(e: Expr, default: Option<LiteralView>, span: Span) -> bool {
    e matches Expr::Literal(l, s) && default == Some(l@) && s == span
}

/// Whether each slot that `sources` leaves empty passes its parameter's declared
/// default, written at the call's `span`.
pub open spec fn fills_defaults(params: Seq<ParamView>, sources: Seq<Option<int>>, passed: Seq<Expr>, span: Span) -> bool {
    forall|k: int|
        0 <= k < sources.len() && #[trigger] sources[k] is None ==> k < params.len() && k < passed.len()
            && is_default_literal(passed[k], params[k].default, span)
}

/// Whether `r` is the call `e` bound, with the calls inside it bound in turn.
pub open spec fn rewrites_call(e: Expr, r: Expr, t: TableView, scopes: Seq<Seq<Seq<char>>>) -> bool
    decreases size(e), 1nat, 0nat,
{
    match e {
        Expr::Call { func, type_args, args, arg_labels, span } => {
            let local = callee_is_local(*func, scopes);
            match own_error(e, t, local) {
                Some(_) => r matches Expr::Call { func: rf, type_args: rt, args: ra, arg_labels: rl, span: rs } && rt
                    == type_args && rl == arg_labels && rs == span && rewrites_expr(*func, *rf, t, scopes)
                    && rewrites_sources(args@, all_sources(args@.len()), ra@, t, scopes),
                None => match continuation(e, t, local) {
                    Continuation::Parts(sources) => r matches Expr::Call {
                        func: rf,
                        type_args: rt,
                        args: ra,
                        arg_labels: rl,
                        span: rs,
                    } && rt == type_args && rs == span && kept_labels(callee_lookup(*func, t, local), arg_labels@, rl@)
                        && rewrites_expr(*func, *rf, t, scopes) && rewrites_sources(args@, sources, ra@, t, scopes)
                        && fills_defaults(callee_params(*func, t, local), sources, ra@, span),
                    Continuation::Temporaries(sources) => {
                        &&& r matches Expr::Block { stmts: rst, .. } && rst@.len() == sources.len() + 1
                            && rewrites_temporaries(args@, sources, rst@, t, scopes) && match rst@.last() {
                                Stmt::Expr(Expr::Call { func: rf, .. }) => rewrites_expr(*func, *rf, t, scopes),
                                _ => false,
                            }
                        &&& exists|b: Expr, sig: Signature|
                            sig@ == callee_params(*func, t, local) && #[trigger] is_hoisted_block(
                                b,
                                *func,
                                type_args,
                                args@,
                                bound_order(e, t, local),
                                sig,
                                span,
                            ) && same_block_shape(b, r)
                    },
                },
            }
        },
        _ => false,
    }
}

/// Whether `rs` are the arms `arms` with every call bound, each with its bindings in
/// scope.
pub open spec fn rewrites_arms(arms: Seq<MatchArm>, rs: Seq<MatchArm>, t: TableView, scopes: Seq<Seq<Seq<char>>>) -> bool
    decreases size_arms(arms), 3nat, arms.len(),
{
    &&& rs.len() == arms.len()
    &&& arms.len() == 0 || {
        let n = arms.len() - 1;
        let a = arms[n];
        let ra = rs[n];
        let inner = scopes.push(id_names(a.bindings@));
        proof {
            lemma_size_arms(arms, n);
        }
        &&& rewrites_arms(arms.subrange(0, n), rs.subrange(0, n), t, scopes)
        &&& ra.bindings == a.bindings
        &&& match (a.guard, ra.guard) {
            (Some(g), Some(rg)) => rewrites_expr(g, rg, t, inner),
            (None, None) => true,
            _ => false,
        }
        &&& rewrites_expr(a.body, ra.body, t, inner)
    }
}

/// Whether `r` is statement `s` with every call bound.
pub open spec fn rewrites_stmt(s: Stmt, r: Stmt, t: TableView, scopes: Seq<Seq<Seq<char>>>) -> bool
    decreases size_stmt(s), 2nat, 0nat,
{
    match s {
        Stmt::VarDecl { name, ty, init, mutable, span } => match r {
            Stmt::VarDecl { name: rn, ty: rt, init: ri, mutable: rm, span: rs } => rn == name && rt == ty && rm
                == mutable && rs == span && match (init, ri) {
                (Some(x), Some(rx)) => rewrites_expr(x, rx, t, scopes),
                (None, None) => true,
                _ => false,
            },
            _ => false,
        },
        Stmt::Loop { header, bound, body, span } => r matches Stmt::Loop { header: rh, bound: rb, body: rbody, span: rs }
            && rb == bound && rs == span && rewrites_sources(header@, all_sources(header@.len()), rh@, t, scopes)
            && rewrites_stmts(body@, rbody@, t, scopes.push(id_names(bound@))),
        Stmt::ValElse { value, else_binding, else_block, pattern, span } => r matches Stmt::ValElse {
            value: rv,
            else_binding: reb,
            else_block: rel,
            pattern: rp,
            span: rs,
        } && reb == else_binding && rp == pattern && rs == span && rewrites_expr(value, rv, t, scopes)
            && rewrites_stmts(
            else_block@,
            rel@,
            t,
            scopes.push(
                match else_binding {
                    Some(b) => seq![b.name@],
                    None => Seq::empty(),
                },
            ),
        ),
        Stmt::Expr(x) => r matches Stmt::Expr(rx) && rewrites_expr(x, rx, t, scopes),
    }
}

/// Whether `rs` are the statements `ss` with every call bound, each with the names the
/// earlier ones declared in scope.
pub open spec fn rewrites_stmts(ss: Seq<Stmt>, rs: Seq<Stmt>, t: TableView, scopes: Seq<Seq<Seq<char>>>) -> bool
    decreases size_stmts(ss), 3nat, ss.len(),
{
    &&& rs.len() == ss.len()
    &&& ss.len() == 0 || {
        let n = ss.len() - 1;
        let init = ss.subrange(0, n);
        proof {
            lemma_size_stmts(ss, n);
        }
        &&& rewrites_stmts(init, rs.subrange(0, n), t, scopes)
        &&& rewrites_stmt(ss[n], rs[n], t, scope_after_stmts(scopes, init))
    }
}

/// Whether `rs` is a function or method body `body` with every call bound.
pub open spec fn rewrites_body(
    params: Seq<Parameter>,
    has_self: bool,
    body: Seq<Stmt>,
    rs: Seq<Stmt>,
    t: TableView,
    scopes: Seq<Seq<Seq<char>>>,
) -> bool {
    rewrites_stmts(body, rs, t, scopes.push(body_names(params, has_self)))
}

/// Whether `rs` are the methods `ms` with every call in their bodies bound.
pub open spec fn rewrites_methods(ms: Seq<MethodDef>, rs: Seq<MethodDef>, t: TableView, scopes: Seq<Seq<Seq<char>>>) -> bool
    decreases ms.len(),
{
    &&& rs.len() == ms.len()
    &&& ms.len() == 0 || {
        let m = ms.last();
        let rm = rs.last();
        &&& rewrites_methods(ms.drop_last(), rs.drop_last(), t, scopes)
        &&& rm.name == m.name && rm.has_self == m.has_self && rm.params == m.params
        &&& match (m.body, rm.body) {
            (Some(b), Some(rb)) => rewrites_body(m.params@, m.has_self, b@, rb@, t, scopes),
            (None, None) => true,
            _ => false,
        }
    }
}

/// Whether `r` is declaration `item` with every call in it bound.
pub open spec fn rewrites_item(item: Item, r: Item, t: TableView, scopes: Seq<Seq<Seq<char>>>) -> bool
    decreases item,
{
    match item {
        Item::Function { name, params, where_predicates, body } => r matches Item::Function {
            name: rn,
            params: rp,
            where_predicates: rw,
            body: rb,
        } && rn == name && rp == params && rewrites_sources(
            where_predicates@,
            all_sources(where_predicates@.len()),
            rw@,
            t,
            scopes,
        ) && rewrites_body(params@, false, body@, rb@, t, scopes),
        Item::Struct { name, where_predicates } => r matches Item::Struct { name: rn, where_predicates: rw } && rn
            == name && rewrites_sources(where_predicates@, all_sources(where_predicates@.len()), rw@, t, scopes),
        Item::Impl { owner, where_predicates, methods } => r matches Item::Impl {
            owner: ro,
            where_predicates: rw,
            methods: rm,
        } && ro == owner && rewrites_sources(
            where_predicates@,
            all_sources(where_predicates@.len()),
            rw@,
            t,
            scopes,
        ) && rewrites_methods(methods@, rm@, t, scopes),
        Item::Trait { name, methods } => r matches Item::Trait { name: rn, methods: rm } && rn == name
            && rewrites_methods(methods@, rm@, t, scopes),
        Item::Const { name, value } => r matches Item::Const { name: rn, value: rv } && rn == name && rewrites_expr(
            value,
            rv,
            t,
            scopes,
        ),
        Item::Module { items } => r matches Item::Module { items: ri } && rewrites_items(items@, ri@, t, scopes),
        Item::Other => r == item,
    }
}

/// Whether `rs` are the declarations `items` with every call bound.
pub open spec fn rewrites_items(items: Seq<Item>, rs: Seq<Item>, t: TableView, scopes: Seq<Seq<Seq<char>>>) -> bool
    decreases items,
{
    &&& rs.len() == items.len()
    &&& items.len() == 0 || {
        proof {
            assert(decreases_to!(items => items[items.len() - 1]));
        }
        &&& rewrites_items(items.drop_last(), rs.drop_last(), t, scopes)
        &&& rewrites_item(items[items.len() - 1], rs[rs.len() - 1], t, scopes)
    }
}

/// Rewriting the arguments binding passes, slot by slot, is rewriting the written
/// arguments at the plan's sources: a slot a default fills holds a literal, which its
/// rewrite leaves as it is.
pub proof fn lemma_arranged_rewrites(
    bound: Seq<Expr>,
    args: Seq<Expr>,
    sources: Seq<Option<int>>,
    rs: Seq<Expr>,
    t: TableView,
    scopes: Seq<Seq<Seq<char>>>,
    k: int,
)
    requires
        takes_sources(bound, args, sources),
        0 <= k <= bound.len(),
        rewrites_sources(bound, all_sources(k as nat), rs, t, scopes),
    ensures
        rewrites_sources(args, sources.take(k), rs, t, scopes),
        forall|j: int| 0 <= j < k && #[trigger] sources[j] is None ==> rs[j] == bound[j],
    decreases k,
{
    if k > 0 {
        assert(all_sources(k as nat).drop_last() =~= all_sources((k - 1) as nat));
        assert(all_sources(k as nat).last() == Some(k - 1));
        assert(sources.take(k).drop_last() =~= sources.take(k - 1));
        assert(sources.take(k).last() == sources[k - 1]);
        lemma_arranged_rewrites(bound, args, sources, rs.drop_last(), t, scopes, k - 1);
        match sources[k - 1] {
            Some(s) => {
                assert(bound[k - 1] == args[s]);
            },
            None => {
                assert(bound[k - 1] is Literal);
                assert(rewrites_expr(bound[k - 1], rs.last(), t, scopes));
                assert(rs.last() == bound[k - 1]);
            },
        }
    } else {
        assert(sources.take(0) =~= Seq::<Option<int>>::empty());
    }
}

/// The temporaries' rewrites hold whatever follows them.
pub proof fn lemma_temporaries_frame(
    args: Seq<Expr>,
    sources: Seq<int>,
    rs: Seq<Stmt>,
    more: Seq<Stmt>,
    t: TableView,
    scopes: Seq<Seq<Seq<char>>>,
)
    requires
        rewrites_temporaries(args, sources, rs, t, scopes),
        more.len() >= rs.len(),
        forall|k: int| 0 <= k < rs.len() ==> more[k] == rs[k],
    ensures
        rewrites_temporaries(args, sources, more, t, scopes),
    decreases sources.len(),
{
    if sources.len() > 0 {
        lemma_temporaries_frame(args, sources.drop_last(), rs, more, t, scopes);
    }
}

} // verus!
