//! Rewriting one call expression: its arguments into the callee's declaration order,
//! or into a block of temporaries where a permutation would reorder effects.

use vstd::prelude::*;
use vstd::string::*;

use super::ast::{Expr, Identifier, Literal, Stmt, Type};
use super::binding::{bind, binding_outcome, label_views, slots_view, BindingPlan, BindingPlanView};
use super::errors::{ArgumentError, ArgumentErrorView, Span};
use super::hoisting::{
    allows_hoisting, annotation, callee_allows_hoisting, inert, is_inert, reorders_effects,
    reorders_effects_spec, temp_name, temp_name_text,
};
use super::signatures::{opt_view, Lookup, LookupView, ParamView, Signature, SignatureTable};

verus! {

/// The argument a declaration slot receives: the one written at its source, or its
/// parameter's default constant at the call's span.
pub open spec fn arranged_argument(
    args: Seq<Expr>,
    slot: Option<usize>,
    default: Option<Literal>,
    span: Span,
) -> Expr {
    match slot {
        Some(s) => args[s as int],
        None => Expr::Literal(default->0, span),
    }
}

/// Whether `slots` is a plan `arrange` can carry out on `n` arguments for `sig`: each
/// source is a distinct written argument, each empty slot has a default.
pub open spec fn arrangeable(slots: Seq<Option<usize>>, n: nat, sig: Signature) -> bool {
    &&& slots.len() == sig.params@.len()
    &&& forall|t: int|
        0 <= t < slots.len() ==> match #[trigger] slots[t] {
            Some(s) => s < n,
            None => sig.params@[t].default is Some,
        }
    &&& forall|t: int, u: int|
        0 <= t < slots.len() && 0 <= u < slots.len() && #[trigger] slots[t] is Some
            && #[trigger] slots[u] == slots[t] ==> t == u
}

/// Whether some slot before `upto` takes the argument written at `s`.
pub open spec fn used_before(slots: Seq<Option<usize>>, s: usize, upto: int) -> bool {
    exists|u: int| 0 <= u < upto && #[trigger] slots[u] == Some(s)
}

/// Put `args` into declaration order: slot `t` receives the argument written at
/// `slots[t]`, or its parameter's default.
pub fn arrange(args: Vec<Expr>, slots: &Vec<Option<usize>>, sig: &Signature, span: Span) -> (out:
    Vec<Expr>)
    requires
        arrangeable(slots@, args@.len(), *sig),
    ensures
        out@.len() == slots@.len(),
        forall|t: int|
            0 <= t < slots@.len() ==> #[trigger] out@[t] == arranged_argument(
                args@,
                slots@[t],
                sig.params@[t].default,
                span,
            ),
{
    let ghost given = args@;
    let n = args.len();
    let mut rest = args;
    let mut taken: Vec<Option<Expr>> = Vec::new();
    while rest.len() > 0
        invariant
            rest@.len() <= n,
            n == given.len(),
            rest@ == given.subrange(0, rest@.len() as int),
            taken@.len() == n - rest@.len(),
            forall|k: int|
                0 <= k < taken@.len() ==> #[trigger] taken@[k] == Some(
                    given[rest@.len() + k],
                ),
        decreases rest@.len(),
    {
        let ghost before = taken@;
        let last = rest.pop();
        match last {
            Some(e) => {
                taken.insert(0, Some(e));
            },
            None => {},
        }
        proof {
            assert forall|k: int| 0 <= k < taken@.len() implies #[trigger] taken@[k] == Some(
                given[rest@.len() + k],
            ) by {
                if k > 0 {
                    assert(taken@[k] == before[k - 1]);
                }
            }
        }
    }
    let mut out: Vec<Expr> = Vec::new();
    let mut t: usize = 0;
    while t < slots.len()
        invariant
            arrangeable(slots@, n as nat, *sig),
            n == given.len(),
            taken@.len() == n,
            t <= slots@.len(),
            out@.len() == t,
            forall|s: int|
                0 <= s < n ==> #[trigger] taken@[s] == if used_before(slots@, s as usize, t as int) {
                    None
                } else {
                    Some(given[s])
                },
            forall|u: int|
                0 <= u < t ==> #[trigger] out@[u] == arranged_argument(
                    given,
                    slots@[u],
                    sig.params@[u].default,
                    span,
                ),
        decreases slots@.len() - t,
    {
        match slots[t] {
            Some(s) => {
                proof {
                    if used_before(slots@, s, t as int) {
                        let u = choose|u: int| 0 <= u < t && #[trigger] slots@[u] == Some(s);
                        assert(slots@[u] is Some && slots@[u] == slots@[t as int]);
                    }
                }
                let ghost before = taken@;
                let x = taken.remove(s);
                taken.insert(s, None);
                proof {
                    assert forall|q: int| 0 <= q < n implies #[trigger] taken@[q] == if used_before(
                        slots@,
                        q as usize,
                        t + 1,
                    ) {
                        None
                    } else {
                        Some(given[q])
                    } by {
                        if q != s as int {
                            assert(taken@[q] == before[q]);
                            if used_before(slots@, q as usize, t + 1) {
                                let u = choose|u: int| 0 <= u < t + 1 && #[trigger] slots@[u] == Some(q as usize);
                                assert(u != t);
                                assert(used_before(slots@, q as usize, t as int));
                            }
                        } else {
                            assert(slots@[t as int] == Some(s));
                        }
                    }
                }
                match x {
                    Some(e) => {
                        out.push(e);
                    },
                    None => {
                        assert(false);
                    },
                }
            },
            None => {
                let lit = match &sig.params[t].default {
                    Some(lit) => lit.duplicate(),
                    None => {
                        assert(false);
                        Literal::Boolean(false)
                    },
                };
                out.push(Expr::Literal(lit, span));
                proof {
                    assert forall|q: int| 0 <= q < n implies #[trigger] taken@[q] == if used_before(
                        slots@,
                        q as usize,
                        t + 1,
                    ) {
                        None
                    } else {
                        Some(given[q])
                    } by {
                        if used_before(slots@, q as usize, t + 1) {
                            let u = choose|u: int| 0 <= u < t + 1 && #[trigger] slots@[u] == Some(q as usize);
                            assert(u != t);
                            assert(used_before(slots@, q as usize, t as int));
                        }
                    }
                }
            },
        }
        t = t + 1;
    }
    out
}

/// Whether `order` lists each of the `n` written arguments exactly once.
pub open spec fn is_permutation(order: Seq<usize>, n: nat) -> bool {
    &&& order.len() == n
    &&& forall|t: int| 0 <= t < order.len() ==> #[trigger] order[t] < n
    &&& forall|t: int, u: int|
        0 <= t < order.len() && 0 <= u < order.len() && #[trigger] order[t] == #[trigger] order[u]
            ==> t == u
    &&& forall|s: int| 0 <= s < n ==> #[trigger] is_source(order, s)
}

/// Whether some slot takes the argument written at `s`.
pub open spec fn is_source(order: Seq<usize>, s: int) -> bool {
    exists|t: int| 0 <= t < order.len() && order[t] == s
}

/// The declaration slot that receives the argument written at `source`.
pub open spec fn slot_of(order: Seq<usize>, source: int) -> int {
    choose|t: int| 0 <= t < order.len() && order[t] == source
}

/// Whether the argument written at `i` carries an effect.
pub open spec fn carries_effect(args: Seq<Expr>) -> spec_fn(int) -> bool {
    |i: int| 0 <= i < args.len() && !is_inert(args[i])
}

/// The sources, in written order, of the arguments that carry an effect.
pub open spec fn effect_sources(args: Seq<Expr>) -> Seq<int> {
    Seq::new(args.len(), |i: int| i).filter(carries_effect(args))
}

/// Whether `e` is what a hoisted call passes for the argument written at `source`: the
/// argument itself when inert, else the temporary holding it.
pub open spec fn passes_source(e: Expr, args: Seq<Expr>, source: int) -> bool {
    if is_inert(args[source]) {
        e == args[source]
    } else {
        e matches Expr::Identifier(id) && id.name@ == temp_name_text(source as nat) && id.span
            == args[source].spec_span()
    }
}

/// Whether `stmt` declares the temporary for the argument written at `source`, typed
/// by the parameter of declaration slot `slot`.
pub open spec fn declares_temporary(stmt: Stmt, args: Seq<Expr>, source: int, ty: Option<Type>) -> bool {
    stmt matches Stmt::VarDecl { name, ty: t, init, mutable, span } && name.name@ == temp_name_text(
        source as nat,
    ) && name.span == args[source].spec_span() && t == ty && init == Some(args[source])
        && !mutable && span == args[source].spec_span()
}

/// The parameter annotation declaration slot `t` of `sig` restates.
pub open spec fn slot_annotation(sig: Signature, t: int) -> Option<Type> {
    if 0 <= t < sig.params@.len() {
        sig.params@[t].ty
    } else {
        None
    }
}

/// In a permutation, the slot of a slot's source is that slot.
proof fn lemma_slot_of(order: Seq<usize>, n: nat, t: int)
    requires
        is_permutation(order, n),
        0 <= t < order.len(),
    ensures
        slot_of(order, order[t] as int) == t,
{
    let c = choose|c: int| 0 <= c < order.len() && order[c] == order[t] as int;
    assert(0 <= c < order.len() && order[c] == order[t]);
}

/// Whether `call` is the bound call a hoisted block ends in: `func` applied to what
/// each declaration slot's source passes, with no labels.
pub open spec fn is_hoisted_call(
    call: Expr,
    func: Expr,
    type_args: Vec<Type>,
    args: Seq<Expr>,
    order: Seq<usize>,
    span: Span,
) -> bool {
    match call {
        Expr::Call { func: f, type_args: ta, args: passed, arg_labels, span: cs } => {
            &&& *f == func
            &&& ta == type_args
            &&& arg_labels@.len() == 0
            &&& cs == span
            &&& passed@.len() == order.len()
            &&& forall|t: int|
                0 <= t < order.len() ==> passes_source(#[trigger] passed@[t], args, order[t] as int)
        },
        _ => false,
    }
}

/// Whether `block` is the hoisted form of calling `func` on `args` bound in `order`:
/// one temporary per effect-carrying argument, in written order, then the bound call.
pub open spec fn is_hoisted_block(
    block: Expr,
    func: Expr,
    type_args: Vec<Type>,
    args: Seq<Expr>,
    order: Seq<usize>,
    sig: Signature,
    span: Span,
) -> bool {
    match block {
        Expr::Block { stmts, span: s } => {
            &&& s == span
            &&& stmts@.len() == effect_sources(args).len() + 1
            &&& forall|k: int|
                0 <= k < stmts@.len() - 1 ==> declares_temporary(
                    #[trigger] stmts@[k],
                    args,
                    effect_sources(args)[k],
                    slot_annotation(sig, slot_of(order, effect_sources(args)[k])),
                )
            &&& match stmts@.last() {
                Stmt::Expr(call) => is_hoisted_call(call, func, type_args, args, order, span),
                _ => false,
            }
        },
        _ => false,
    }
}

/// Rewrite a call of `func` whose arguments `args` bind in `order` (`order[slot]` =
/// source) into `{ val __narg<i> = <argument i>; ...; func(<declaration order>) }`: the
/// effect-carrying arguments are bound to temporaries in the order they were written,
/// each typed as its parameter, and the call passes them (and the inert arguments
/// themselves) in declaration order, with no labels.
#[verifier::loop_isolation(false)]
#[verifier::rlimit(60)]
pub fn hoist(
    func: Box<Expr>,
    type_args: Vec<Type>,
    args: Vec<Expr>,
    order: &Vec<usize>,
    sig: &Signature,
    span: Span,
) -> (block: Expr)
    requires
        is_permutation(order@, args@.len()),
    ensures
        is_hoisted_block(block, *func, type_args, args@, order@, *sig, span),
{
    let ghost given = args@;
    let n = args.len();

    // The declaration slot each written argument binds to.
    let mut slot_of_source: Vec<usize> = Vec::new();
    let mut i: usize = 0;
    while i < n
        invariant
            i <= n,
            slot_of_source@.len() == i,
        decreases n - i,
    {
        slot_of_source.push(0);
        i = i + 1;
    }
    let mut slot: usize = 0;
    while slot < order.len()
        invariant
            slot <= order@.len(),
            slot_of_source@.len() == n,
            forall|t: int| 0 <= t < slot ==> #[trigger] slot_of_source@[order@[t] as int] == t,
        decreases order@.len() - slot,
    {
        let source = order[slot];
        slot_of_source.set(source, slot);
        proof {
            assert forall|t: int| 0 <= t < slot + 1 implies #[trigger] slot_of_source@[order@[t] as int] == t by {
                if t < slot {
                    assert(order@[t] != order@[slot as int]);
                }
            }
        }
        slot = slot + 1;
    }
    proof {
        assert forall|s: int| 0 <= s < n implies #[trigger] slot_of_source@[s] == slot_of(order@, s) by {
            assert(is_source(order@, s));
            let t = choose|t: int| 0 <= t < order@.len() && order@[t] == s;
            assert(slot_of_source@[order@[t] as int] == t);
            lemma_slot_of(order@, n as nat, t);
        }
    }

    // Bind each effect-carrying argument to a temporary, in the order written.
    let mut rest = args;
    let mut pending: Vec<Expr> = Vec::new();
    while rest.len() > 0
        invariant
            rest@.len() <= n,
            rest@ == given.subrange(0, rest@.len() as int),
            pending@ == given.subrange(rest@.len() as int, n as int),
        decreases rest@.len(),
    {
        let last = rest.pop();
        match last {
            Some(e) => {
                pending.insert(0, e);
            },
            None => {},
        }
        proof {
            assert(pending@ =~= given.subrange(rest@.len() as int, n as int));
        }
    }
    assert(pending@ =~= given);
    let mut stmts: Vec<Stmt> = Vec::new();
    let mut bound: Vec<Option<Expr>> = Vec::new();
    let mut source: usize = 0;
    while pending.len() > 0
        invariant
            source + pending@.len() == n,
            pending@ == given.subrange(source as int, n as int),
            bound@.len() == source,
            forall|s: int| 0 <= s < source ==> (#[trigger] bound@[s] matches Some(e) && passes_source(e, given, s)),
            stmts@.len() == Seq::new(source as nat, |i: int| i).filter(carries_effect(given)).len(),
            forall|k: int|
                0 <= k < stmts@.len() ==> declares_temporary(
                    #[trigger] stmts@[k],
                    given,
                    Seq::new(source as nat, |i: int| i).filter(carries_effect(given))[k],
                    slot_annotation(
                        *sig,
                        slot_of(
                            order@,
                            Seq::new(source as nat, |i: int| i).filter(carries_effect(given))[k],
                        ),
                    ),
                ),
        decreases pending@.len(),
    {
        let arg = pending.remove(0);
        let ghost prefix = Seq::new(source as nat, |i: int| i);
        let ghost next = Seq::new((source + 1) as nat, |i: int| i);
        proof {
            reveal_with_fuel(Seq::<_>::filter, 1);
            assert(next.drop_last() =~= prefix);
            assert(arg == given[source as int]);
        }
        if inert(&arg) {
            bound.push(Some(arg));
        } else {
            let arg_span = arg.span();
            let name = temp_name(source, arg_span);
            let temp = Expr::Identifier(Identifier { name: name.name.clone(), span: name.span });
            let decl = Stmt::VarDecl {
                ty: annotation(sig, slot_of_source[source]),
                init: Some(arg),
                mutable: false,
                span: arg_span,
                name,
            };
            stmts.push(decl);
            bound.push(Some(temp));
        }
        proof {
            assert(pending@ =~= given.subrange(source + 1, n as int));
        }
        source = source + 1;
    }
    assert(Seq::new(n as nat, |i: int| i) =~= Seq::new(given.len(), |i: int| i));

    // Pass them in declaration order.
    let mut passed: Vec<Expr> = Vec::new();
    let mut t: usize = 0;
    while t < order.len()
        invariant
            t <= order@.len(),
            bound@.len() == n,
            passed@.len() == t,
            forall|s: int|
                0 <= s < n ==> if used_before_in(order@, s, t as int) {
                    #[trigger] bound@[s] is None
                } else {
                    bound@[s] matches Some(e) && passes_source(e, given, s)
                },
            forall|u: int| 0 <= u < t ==> passes_source(#[trigger] passed@[u], given, order@[u] as int),
        decreases order@.len() - t,
    {
        let s = order[t];
        proof {
            if used_before_in(order@, s as int, t as int) {
                let u = choose|u: int| 0 <= u < t && #[trigger] order@[u] as int == s as int;
                assert(order@[u] == order@[t as int]);
            }
        }
        let ghost before = bound@;
        let x = bound.remove(s);
        bound.insert(s, None);
        proof {
            assert forall|q: int| 0 <= q < n implies if used_before_in(order@, q, t + 1) {
                #[trigger] bound@[q] is None
            } else {
                bound@[q] matches Some(e) && passes_source(e, given, q)
            } by {
                if q != s as int {
                    assert(bound@[q] == before[q]);
                    if used_before_in(order@, q, t + 1) {
                        let u = choose|u: int| 0 <= u < t + 1 && #[trigger] order@[u] as int == q;
                        assert(u != t);
                        assert(used_before_in(order@, q, t as int));
                    }
                } else {
                    assert(order@[t as int] as int == q);
                }
            }
        }
        match x {
            Some(e) => {
                passed.push(e);
            },
            None => {
                assert(false);
            },
        }
        t = t + 1;
    }

    let call = Expr::Call { func, type_args, args: passed, arg_labels: Vec::new(), span };
    stmts.push(Stmt::Expr(call));
    Expr::Block { stmts, span }
}

/// Whether some slot before `upto` takes the argument written at `s`.
pub open spec fn used_before_in(order: Seq<usize>, s: int, upto: int) -> bool {
    exists|u: int| 0 <= u < upto && #[trigger] order[u] as int == s
}

/// The labels of a call, as the texts written.
pub open spec fn ident_label_views(labels: Seq<Option<Identifier>>) -> Seq<Option<Seq<char>>> {
    labels.map_values(
        |l: Option<Identifier>| match l {
            Some(id) => Some(id.name@),
            None => None,
        },
    )
}

/// The spans of the written arguments.
pub open spec fn arg_spans(args: Seq<Expr>) -> Seq<Span> {
    args.map_values(|a: Expr| a.spec_span())
}

/// The first label a call writes.
pub open spec fn first_label_spec(labels: Seq<Option<Identifier>>) -> Option<Seq<char>> {
    match super::binding::named_from(ident_label_views(labels)) {
        Some(f) => ident_label_views(labels)[f],
        None => None,
    }
}

/// The first label a call writes, if it writes any.
pub fn first_label(labels: &Vec<Option<Identifier>>) -> (label: Option<String>)
    ensures
        opt_view(label) == first_label_spec(labels@),
{
    let ghost lv = ident_label_views(labels@);
    let mut i: usize = 0;
    while i < labels.len()
        invariant
            i <= labels@.len(),
            lv == ident_label_views(labels@),
            forall|j: int| 0 <= j < i ==> !#[trigger] super::binding::labelled(lv)(j),
        decreases labels@.len() - i,
    {
        match &labels[i] {
            Some(l) => {
                proof {
                    assert(super::binding::labelled(lv)(i as int));
                    super::binding::lemma_first_where(
                        0,
                        lv.len() as int,
                        super::binding::labelled(lv),
                        i as int,
                    );
                }
                return Some(l.name.clone());
            },
            None => {
                assert(!super::binding::labelled(lv)(i as int));
            },
        }
        i = i + 1;
    }
    proof {
        super::binding::lemma_first_none(0, lv.len() as int, super::binding::labelled(lv));
    }
    None
}

/// How a call names its callee, for diagnostics.
pub const PATH_SEPARATOR: &'static str = "::";

/// The name a call through an arbitrary expression is reported under.
pub const UNNAMED_CALLEE: &'static str = "this call";

/// The name a call through `func` reports its callee under.
pub open spec fn callee_name(func: Expr) -> Seq<char> {
    match func {
        Expr::Identifier(id) => id.name@,
        Expr::Path { owner, member, .. } => owner.name@ + PATH_SEPARATOR@ + member.name@,
        Expr::FieldAccess { field, .. } => field.name@,
        _ => UNNAMED_CALLEE@,
    }
}

/// What the program declares under the callee `func` names: a free function by name
/// (unless `local`, a local binding, shadows it), an associated function by type and
/// name, or an instance method by name; a call through any other expression names no
/// declaration.
pub open spec fn callee_lookup(func: Expr, table: super::signatures::TableView, local: bool) -> LookupView {
    match func {
        Expr::Identifier(id) => if !local && table.functions.dom().contains(id.name@) {
            LookupView::Known(table.functions[id.name@])
        } else {
            LookupView::Unknown
        },
        Expr::Path { owner, member, .. } => if table.assoc.dom().contains((owner.name@, member.name@)) {
            LookupView::Known(table.assoc[(owner.name@, member.name@)])
        } else {
            LookupView::Unknown
        },
        Expr::FieldAccess { field, .. } => if !table.methods.dom().contains(field.name@) {
            LookupView::Unknown
        } else {
            match table.methods[field.name@] {
                Some(sig) => LookupView::Known(sig),
                None => LookupView::Ambiguous,
            }
        },
        _ => LookupView::Unknown,
    }
}

/// What binding did to a call expression, which decides how the walk continues.
#[derive(Debug, Clone, Copy, PartialEq, Eq, Structural)]
pub enum Bound {
    /// The call is still a call: its arguments were permuted in place, or left alone.
    InPlace,
    /// The call was replaced by a block binding its arguments to temporaries; the call
    /// it ends with is already bound.
    Hoisted,
}

/// The declaration order of a plan whose every slot takes an argument.
pub open spec fn plan_order(slots: Seq<Option<usize>>) -> Seq<usize> {
    slots.map_values(|s: Option<usize>| s->0)
}

/// Whether every slot of the plan takes a written argument.
pub open spec fn no_defaults(slots: Seq<Option<usize>>) -> bool {
    forall|t: int| 0 <= t < slots.len() ==> #[trigger] slots[t] is Some
}

/// Whether a call's labels are absent or one per argument, as the parser writes them.
pub open spec fn labels_well_formed(call: Expr) -> bool {
    match call {
        Expr::Call { args, arg_labels, .. } => arg_labels@.len() == 0 || arg_labels@.len() == args@.len(),
        _ => true,
    }
}

/// Whether `result` is the call `func(args)` of `call`, left in place with its labels
/// gone: `args` is what declaration slot `t` receives per `slots`, or, for `None`, the
/// call's own arguments.
pub open spec fn is_bound_in_place(
    result: Expr,
    call: Expr,
    slots: Option<Seq<Option<usize>>>,
    sig: Seq<Option<Literal>>,
) -> bool {
    match (result, call) {
        (
            Expr::Call { func: f, type_args: ta, args: new_args, arg_labels: new_labels, span: s },
            Expr::Call { func, type_args, args, span, .. },
        ) => {
            &&& f == func
            &&& ta == type_args
            &&& s == span
            &&& new_labels@.len() == 0
            &&& match slots {
                None => new_args@ == args@,
                Some(slots) => new_args@.len() == slots.len() && forall|t: int|
                    0 <= t < slots.len() ==> #[trigger] new_args@[t] == arranged_argument(
                        args@,
                        slots[t],
                        sig[t],
                        span,
                    ),
            }
        },
        _ => false,
    }
}

/// Whether every label of `call` is absent.
pub open spec fn no_written_label(call: Expr) -> bool {
    match call {
        Expr::Call { arg_labels, .. } => forall|i: int| 0 <= i < arg_labels@.len() ==> #[trigger] arg_labels@[i] is None,
        _ => true,
    }
}

/// The defaults of a signature's parameters.
pub open spec fn defaults_of(sig: Signature) -> Seq<Option<Literal>> {
    sig.params@.map_values(|p: super::signatures::ParamBinding| p.default)
}

/// Whether `result` is what binding `call` by the plan `slots` for `sig` (whose rules
/// are `params`, and whose plan over indices is `plan`) gives: the hoisted block where
/// every slot takes an argument, the permutation reorders two effects and the callee
/// stays put; the call rearranged in place otherwise.
pub open spec fn bound_with(
    sig: Signature,
    slots: Seq<Option<usize>>,
    params: Seq<ParamView>,
    plan: Seq<Option<int>>,
    call: Expr,
    result: (Expr, Result<Bound, ArgumentError>),
) -> bool {
    match call {
        Expr::Call { func, type_args, args, span, .. } => {
            &&& sig@ == params
            &&& slots_view(slots) == plan
            &&& arrangeable(slots, args@.len(), sig)
            &&& if no_defaults(slots) && reorders_effects_spec(plan_order(slots), args@)
                && callee_allows_hoisting(*func) {
                result.1 == Ok::<Bound, ArgumentError>(Bound::Hoisted) && is_hoisted_block(
                    result.0,
                    *func,
                    type_args,
                    args@,
                    plan_order(slots),
                    sig,
                    span,
                )
            } else {
                result.1 == Ok::<Bound, ArgumentError>(Bound::InPlace) && is_bound_in_place(
                    result.0,
                    call,
                    Some(slots),
                    defaults_of(sig),
                )
            }
        },
        _ => false,
    }
}

/// What binding `call` against a callee with rules `params` gives: the call unchanged
/// with the first rule it breaks, the call with its labels cleared, or the call bound by
/// the plan.
pub open spec fn known_outcome(
    call: Expr,
    params: Seq<ParamView>,
    result: (Expr, Result<Bound, ArgumentError>),
) -> bool {
    match call {
        Expr::Call { func, type_args, args, arg_labels, span } => match binding_outcome(
            ident_label_views(arg_labels@),
            args@.len() as int,
            params,
            callee_name(*func),
            span,
            arg_spans(args@),
        ) {
            Err(error) => result.0 == call && (result.1 matches Err(e) && e@ == error),
            Ok(BindingPlanView::Unchanged) => result.1 == Ok::<Bound, ArgumentError>(Bound::InPlace)
                && is_bound_in_place(result.0, call, None, Seq::empty()),
            Ok(BindingPlanView::Slots(plan)) => slots_outcome(params, plan, call, result),
        },
        _ => false,
    }
}

/// Whether `result` is what binding `call` by some plan of slots `plan` gives.
pub open spec fn slots_outcome(
    params: Seq<ParamView>,
    plan: Seq<Option<int>>,
    call: Expr,
    result: (Expr, Result<Bound, ArgumentError>),
) -> bool {
    exists|bound_sig: Signature, bound_slots: Seq<Option<usize>>|
        #[trigger] bound_with(bound_sig, bound_slots, params, plan, call, result)
}

/// Bind the call `func(args)` against the callee `sig`, named `callee`.
#[verifier::spinoff_prover]
fn bind_known(
    func: Box<Expr>,
    type_args: Vec<Type>,
    args: Vec<Expr>,
    arg_labels: Vec<Option<Identifier>>,
    span: Span,
    sig: &Signature,
    callee: String,
) -> (result: (Expr, Result<Bound, ArgumentError>))
    requires
        arg_labels@.len() == 0 || arg_labels@.len() == args@.len(),
        callee@ == callee_name(*func),
    ensures
        known_outcome(Expr::Call { func, type_args, args, arg_labels, span }, sig@, result),
{
    let ghost given = Expr::Call { func, type_args, args, arg_labels, span };
    let labels = label_strings(&arg_labels);
    let spans = spans_of(&args);
    match bind(&labels, &spans, sig, callee.as_str(), span) {
        Err(e) => {
            let r = (Expr::Call { func, type_args, args, arg_labels, span }, Err(e));
            assert(known_outcome(given, sig@, r));
            r
        },
        Ok(BindingPlan::Unchanged) => {
            let r = (
                Expr::Call { func, type_args, args, arg_labels: Vec::new(), span },
                Ok(Bound::InPlace),
            );
            assert(known_outcome(given, sig@, r));
            r
        },
        Ok(BindingPlan::Slots(slots)) => {
            assert(spans@.len() == args@.len());
            assert(binding_outcome(ident_label_views(arg_labels@), args@.len() as int, sig@, callee_name(*func), span, arg_spans(args@))
                == Ok::<BindingPlanView, ArgumentErrorView>(BindingPlanView::Slots(slots_view(slots@))));
            assert(match given {
                Expr::Call { func: f0, args: a0, arg_labels: l0, span: s0, .. } => binding_outcome(
                    ident_label_views(l0@),
                    a0@.len() as int,
                    sig@,
                    callee_name(*f0),
                    s0,
                    arg_spans(a0@),
                ) == Ok::<BindingPlanView, ArgumentErrorView>(BindingPlanView::Slots(slots_view(slots@))),
                _ => false,
            });
            proof {
                super::binding::lemma_binding_assigns_each_argument_once(
                    ident_label_views(arg_labels@),
                    args@.len() as int,
                    sig@,
                    callee@,
                    span,
                    arg_spans(args@),
                    slots_view(slots@),
                );
            }
            proof {
                let view = slots_view(slots@);
                assert forall|t: int| 0 <= t < slots@.len() implies match #[trigger] slots@[t] {
                    Some(s) => s < args@.len(),
                    None => sig.params@[t].default is Some,
                } by {
                    assert(view[t] is Some <==> slots@[t] is Some);
                    assert(sig@[t].has_default == sig.params@[t].default is Some);
                }
                assert forall|t: int, u: int|
                    0 <= t < slots@.len() && 0 <= u < slots@.len() && #[trigger] slots@[t] is Some
                        && #[trigger] slots@[u] == slots@[t] implies t == u by {
                    assert(view[t] is Some && view[u] == view[t]);
                }
                assert(arrangeable(slots@, args@.len(), *sig));
            }
            let order = full_order(&slots);
            let hoistable = match &order {
                Some(order) => reorders_effects(order, &args) && allows_hoisting(&func),
                None => false,
            };
            if hoistable {
                match order {
                    Some(order) => {
                        proof {
                            let view = slots_view(slots@);
                            assert forall|q: int| 0 <= q < args@.len() implies #[trigger] is_source(order@, q) by {
                                assert(super::binding::is_assigned(view, q));
                                let t = choose|t: int| 0 <= t < view.len() && #[trigger] view[t] == Some(q);
                                assert(order@[t] == slots@[t]->0);
                            }
                            assert forall|t: int, u: int|
                                0 <= t < order@.len() && 0 <= u < order@.len() && #[trigger] order@[t] == #[trigger] order@[u]
                                implies t == u by {
                                assert(slots@[t] is Some && slots@[u] == slots@[t]);
                            }
                        }
                        let ghost f0 = *func;
                        let ghost ta0 = type_args;
                        let ghost a0 = args@;
                        let block = hoist(func, type_args, args, &order, sig, span);
                        assert(is_hoisted_block(block, f0, ta0, a0, plan_order(slots@), *sig, span));
                        let r = (block, Ok(Bound::Hoisted));
                        assert(bound_with(*sig, slots@, sig@, slots_view(slots@), given, r));
                        assert(slots_outcome(sig@, slots_view(slots@), given, r));
                        assert(known_outcome(given, sig@, r));
                        r
                    },
                    None => {
                        (Expr::Call { func, type_args, args, arg_labels, span }, Ok(Bound::InPlace))
                    },
                }
            } else {
                let ghost a0 = args@;
                let arranged = arrange(args, &slots, sig, span);
                proof {
                    assert forall|t: int| 0 <= t < slots@.len() implies #[trigger] arranged@[t] == arranged_argument(
                        a0,
                        slots@[t],
                        defaults_of(*sig)[t],
                        span,
                    ) by {
                        assert(defaults_of(*sig)[t] == sig.params@[t].default);
                    }
                }
                let r = (
                    Expr::Call { func, type_args, args: arranged, arg_labels: Vec::new(), span },
                    Ok(Bound::InPlace),
                );
                assert(bound_with(*sig, slots@, sig@, slots_view(slots@), given, r));
                assert(slots_outcome(sig@, slots_view(slots@), given, r));
                assert(known_outcome(given, sig@, r));
                r
            }
        },
    }
}

/// What binding the call `given` answers: for a known callee, the outcome of its
/// rules; where the callee declares no names, or several methods declare them
/// differently, the call as written, refused if it writes a label. Anything but a call
/// is left as it is.
pub open spec fn bind_call_exact(
    given: Expr,
    table: super::signatures::TableView,
    local: bool,
    result: (Expr, Result<Bound, ArgumentError>),
) -> bool {
    match given {
        Expr::Call { func, type_args, args, arg_labels, span } => {
            let callee = callee_name(*func);
            match callee_lookup(*func, table, local) {
                LookupView::Known(params) => known_outcome(given, params, result),
                LookupView::Unknown => result.0 == given && match first_label_spec(arg_labels@) {
                    Some(_) => result.1 matches Err(e) && e@ == (ArgumentErrorView::LabelsUnsupported {
                        callee,
                        span,
                    }),
                    None => result.1 == Ok::<Bound, ArgumentError>(Bound::InPlace),
                },
                LookupView::Ambiguous => result.0 == given && match first_label_spec(arg_labels@) {
                    Some(label) => result.1 matches Err(e) && e@ == (ArgumentErrorView::AmbiguousMethodLabels {
                        callee,
                        label,
                        span,
                    }),
                    None => result.1 == Ok::<Bound, ArgumentError>(Bound::InPlace),
                },
            }
        },
        _ => result.0 == given && result.1 == Ok::<Bound, ArgumentError>(Bound::InPlace),
    }
}

/// Bind one call, resolving its callee against the program's declarations in `table`;
/// `local` says whether the callee is a bare name a local binding holds.
///
/// A call whose callee is known is bound (see [`bind`]): left in place, rearranged in
/// place, or, where the rearrangement would reorder two effects and the callee allows
/// it, hoisted into a block of temporaries. A call whose callee declares no names, or
/// whose name several methods declare differently, may not use labels. A call that
/// cannot be bound is returned as it was, with the error.
#[verifier::spinoff_prover]
#[verifier::rlimit(40)]
pub fn bind_call(call: Expr, table: &SignatureTable, local: bool) -> (result: (
    Expr,
    Result<Bound, ArgumentError>,
))
    requires
        table.wf(),
        labels_well_formed(call),
    ensures
        bind_call_exact(call, table@, local, result),
{
    let ghost given = call;
    match call {
        Expr::Call { func, type_args, args, arg_labels, span } => {
            let callee = callee_string(&func);
            let lookup = match &*func {
                Expr::Identifier(ident) => if local {
                    Lookup::Unknown
                } else {
                    table.function(&ident.name)
                },
                Expr::Path { owner, member, .. } => table.assoc_function(&owner.name, &member.name),
                Expr::FieldAccess { field, .. } => table.method(&field.name),
                _ => Lookup::Unknown,
            };
            match lookup {
                Lookup::Known(sig) => bind_known(func, type_args, args, arg_labels, span, sig, callee),
                Lookup::Unknown => match first_label(&arg_labels) {
                    Some(_) => (
                        Expr::Call { func, type_args, args, arg_labels, span },
                        Err(ArgumentError::LabelsUnsupported { callee, span }),
                    ),
                    None => (Expr::Call { func, type_args, args, arg_labels, span }, Ok(Bound::InPlace)),
                },
                Lookup::Ambiguous => match first_label(&arg_labels) {
                    Some(label) => (
                        Expr::Call { func, type_args, args, arg_labels, span },
                        Err(ArgumentError::AmbiguousMethodLabels { callee, label, span }),
                    ),
                    None => (Expr::Call { func, type_args, args, arg_labels, span }, Ok(Bound::InPlace)),
                },
            }
        },
        other => (other, Ok(Bound::InPlace)),
    }
}

/// The order of a plan whose every slot takes an argument, or `None` where some slot
/// takes a default.
fn full_order(slots: &Vec<Option<usize>>) -> (order: Option<Vec<usize>>)
    ensures
        match order {
            Some(o) => no_defaults(slots@) && o@ == plan_order(slots@),
            None => !no_defaults(slots@),
        },
{
    let mut order: Vec<usize> = Vec::new();
    let mut t: usize = 0;
    while t < slots.len()
        invariant
            t <= slots@.len(),
            order@ == plan_order(slots@.subrange(0, t as int)),
            forall|u: int| 0 <= u < t ==> #[trigger] slots@[u] is Some,
        decreases slots@.len() - t,
    {
        match slots[t] {
            Some(s) => {
                order.push(s);
                assert(plan_order(slots@.subrange(0, t + 1)) =~= plan_order(slots@.subrange(0, t as int)).push(s));
            },
            None => {
                return None;
            },
        }
        t = t + 1;
    }
    assert(slots@.subrange(0, slots@.len() as int) =~= slots@);
    Some(order)
}

/// The name a call through `func` reports its callee under.
fn callee_string(func: &Expr) -> (name: String)
    ensures
        name@ == callee_name(*func),
{
    match func {
        Expr::Identifier(ident) => ident.name.clone(),
        Expr::Path { owner, member, .. } => {
            let mut name = owner.name.clone();
            name.append(PATH_SEPARATOR);
            name.append(member.name.as_str());
            name
        },
        Expr::FieldAccess { field, .. } => field.name.clone(),
        _ => String::from_str(UNNAMED_CALLEE),
    }
}

/// The labels of a call as texts.
fn label_strings(labels: &Vec<Option<Identifier>>) -> (texts: Vec<Option<String>>)
    ensures
        label_views(texts@) == ident_label_views(labels@),
{
    let mut texts: Vec<Option<String>> = Vec::new();
    let mut i: usize = 0;
    while i < labels.len()
        invariant
            i <= labels@.len(),
            label_views(texts@) == ident_label_views(labels@.subrange(0, i as int)),
        decreases labels@.len() - i,
    {
        let text = match &labels[i] {
            Some(l) => Some(l.name.clone()),
            None => None,
        };
        let ghost before = texts@;
        texts.push(text);
        proof {
            assert(labels@.subrange(0, i + 1) =~= labels@.subrange(0, i as int).push(labels@[i as int]));
            assert(texts@ =~= before.push(text));
            assert(label_views(texts@) =~= label_views(before).push(opt_view(text)));
            assert(ident_label_views(labels@.subrange(0, i + 1)) =~= ident_label_views(
                labels@.subrange(0, i as int),
            ).push(ident_label_views(labels@)[i as int]));
        }
        i = i + 1;
    }
    assert(labels@.subrange(0, labels@.len() as int) =~= labels@);
    texts
}

/// The spans of the written arguments.
fn spans_of(args: &Vec<Expr>) -> (spans: Vec<Span>)
    ensures
        spans@ == arg_spans(args@),
{
    let mut spans: Vec<Span> = Vec::new();
    let mut i: usize = 0;
    while i < args.len()
        invariant
            i <= args@.len(),
            spans@ == arg_spans(args@.subrange(0, i as int)),
        decreases args@.len() - i,
    {
        spans.push(args[i].span());
        assert(spans@ =~= arg_spans(args@.subrange(0, i + 1)));
        i = i + 1;
    }
    assert(args@.subrange(0, args@.len() as int) =~= args@);
    spans
}

} // verus!
