//! `.backward()`: running a `@grad` call's derivative and parking its gradients.
//!
//! A block holding `val loss = f(x, &mut w)` and, later, `loss.backward()` is rewritten
//! so the declaration calls the derivative and unpacks its result,
//!
//! ```text
//! val __backward_N = __f__rev(x, &mut w)
//! val loss = __backward_N.0
//! ```
//!
//! and the `.backward()` becomes one slot write per differentiated argument,
//! `(&mut w).__set_grad(__backward_N.1.w)`, then one per tensor the method's `wrt:`
//! reaches through its receiver. A call passing function values runs a derivative
//! specialized to the targets the call names, which takes the closures' captures as
//! trailing arguments.

use vstd::prelude::*;
use vstd::string::*;

use super::autodiff::{
    bundle_name, field_key, field_key_spec, path_view, paths_view, reverse_name, GradParams,
    GradParamsView, PathStep, PathStepView, WrtView, BUNDLE_PREFIX, REVERSE_PREFIX, REVERSE_SUFFIX,
};
use super::hir::{
    referent, HirBindings, HirExpr, HirExprKind, HirExprKindView, HirExprView, HirExprs, HirStmt,
    HirStmtView, HirType, HirTypeView, HirTypes, exprs_view, stmt_view, stmts_view, type_view, types_view,
};
use super::{concat3, malformed, LoweringError, LoweringErrorView};
use crate::arguments::assoc::AssocList;
use crate::arguments::ast::{Expr, Stmt};
use crate::arguments::errors::Span;
use crate::text::{decimal, decimal_digits};

verus! {

/// The method name a `.backward()` statement calls.
pub const BACKWARD_METHOD: &'static str = "backward";

/// The private slot write each differentiated argument's gradient moves through.
pub const SET_GRAD_METHOD: &'static str = "__set_grad";

/// Joins a `@grad` function's name to a specialization's number in the derivative's key.
pub const SPECIALIZATION_INFIX: &'static str = "__with";

/// The prefix of the binding holding a derivative's `(loss, gradients)` pair.
pub const BACKWARD_BINDING_PREFIX: &'static str = "__backward_";

/// What a function value passed to a `@grad` method is refused as.
pub const METHOD_FUNCTION_VALUE: &'static str = "a function value passed to a `@grad` method";

/// What a function value passed to a `@grad` call is refused as when the call does not
/// name its target.
pub const UNNAMED_TARGET: &'static str = "a function value passed to a `@grad` call without naming its target; pass the function or the closure at the call, or a local bound to one that captures nothing";

/// A function value's target as a call site writes it: a function or a lifted closure by
/// name, and the closure's captures in layout order.
pub struct Target {
    pub name: String,
    pub captures: HirBindings,
}

/// A [`Target`] with its names as character sequences.
pub struct TargetView {
    pub name: Seq<char>,
    pub captures: Seq<(Seq<char>, HirTypeView)>,
}

impl View for Target {
    type V = TargetView;

    open spec fn view(&self) -> TargetView {
        TargetView { name: self.name@, captures: self.captures@ }
    }
}

/// A `@grad` function taking function-typed parameters, derived for the targets one
/// call site passes them.
pub struct Specialization {
    /// The `@grad` function.
    pub function: String,
    /// What the derivative is named after.
    pub key: String,
    /// Each function-typed parameter, by name, with its target.
    pub targets: Vec<(String, Target)>,
}

/// A [`Specialization`] with its names as character sequences.
pub struct SpecializationView {
    pub function: Seq<char>,
    pub key: Seq<char>,
    pub targets: Seq<(Seq<char>, TargetView)>,
}

/// The view of a list of targets.
pub open spec fn targets_view(targets: Seq<(String, Target)>) -> Seq<(Seq<char>, TargetView)> {
    targets.map_values(|p: (String, Target)| (p.0@, p.1@))
}

impl View for Specialization {
    type V = SpecializationView;

    open spec fn view(&self) -> SpecializationView {
        SpecializationView { function: self.function@, key: self.key@, targets: targets_view(self.targets@) }
    }
}

/// The view of the specializations recorded so far.
pub open spec fn specializations_view(specs: Seq<Specialization>) -> Seq<SpecializationView> {
    specs.map_values(|s: Specialization| s@)
}

/// What rewriting a `.backward()` reads of the lowering under way, and advances.
pub struct BackwardContext {
    /// The local bindings of each open scope, innermost last.
    pub scopes: Vec<AssocList<String, HirType>>,
    /// The names of the program's functions.
    pub functions: Vec<String>,
    /// Every struct's fields in declaration order.
    pub structs: AssocList<String, HirBindings>,
    /// The derivative key of each method, by the type that owns it and its name.
    pub impl_methods: AssocList<(String, String), String>,
    /// Every `@grad` function's parameter names and selection, by its key.
    pub grad_params: AssocList<String, GradParams>,
    /// The specialized derivatives recorded so far.
    pub specializations: Vec<Specialization>,
    /// How many `(loss, gradients)` bindings have been named.
    pub backward_counter: u64,
}

/// A [`BackwardContext`] as maps and sequences.
pub struct BackwardContextView {
    pub scopes: Seq<Map<Seq<char>, HirTypeView>>,
    pub functions: Seq<Seq<char>>,
    pub structs: Map<Seq<char>, Seq<(Seq<char>, HirTypeView)>>,
    pub impl_methods: Map<(Seq<char>, Seq<char>), Seq<char>>,
    pub grad_params: Map<Seq<char>, GradParamsView>,
    pub specializations: Seq<SpecializationView>,
    pub backward_counter: u64,
}

impl View for BackwardContext {
    type V = BackwardContextView;

    open spec fn view(&self) -> BackwardContextView {
        BackwardContextView {
            scopes: self.scopes@.map_values(|s: AssocList<String, HirType>| s.map()),
            functions: self.functions@.map_values(|f: String| f@),
            structs: self.structs.map(),
            impl_methods: self.impl_methods.map(),
            grad_params: self.grad_params.map(),
            specializations: specializations_view(self.specializations@),
            backward_counter: self.backward_counter,
        }
    }
}

impl BackwardContext {
    /// Every map is well formed.
    pub open spec fn wf(&self) -> bool {
        &&& forall|i: int| 0 <= i < self.scopes@.len() ==> (#[trigger] self.scopes@[i]).wf()
        &&& self.structs.wf()
        &&& self.impl_methods.wf()
        &&& self.grad_params.wf()
    }
}

/// The type of the local `name`, innermost scope first.
pub open spec fn lookup_local(scopes: Seq<Map<Seq<char>, HirTypeView>>, name: Seq<char>) -> Option<HirTypeView>
    decreases scopes.len(),
{
    if scopes.len() == 0 {
        None
    } else if scopes.last().dom().contains(name) {
        Some(scopes.last()[name])
    } else {
        lookup_local(scopes.drop_last(), name)
    }
}

/// The position of the last declaration of `loss` in `out`.
pub open spec fn declared_position(out: Seq<HirStmtView>, loss: Seq<char>) -> Option<int>
    decreases out.len(),
{
    if out.len() == 0 {
        None
    } else if out.last() matches HirStmtView::VarDecl { name, .. } && name == loss {
        Some(out.len() - 1)
    } else {
        declared_position(out.drop_last(), loss)
    }
}

/// The key `callee` names a derivative under: a function's own name, or the key of a
/// method called on a receiver of a known struct type.
pub open spec fn grad_key_spec(c: BackwardContextView, callee: HirExprView) -> Option<Seq<char>> {
    match callee.kind {
        HirExprKindView::Variable(function) => Some(function),
        HirExprKindView::FieldAccess { object, field } => match referent(object.ty) {
            HirTypeView::Struct(owner) => if c.impl_methods.dom().contains((owner, field)) {
                Some(c.impl_methods[(owner, field)])
            } else {
                None
            },
            _ => None,
        },
        _ => None,
    }
}

/// The value of the last immutable declaration of `name` in `block` that has one.
pub open spec fn latest_binding(block: Seq<HirStmtView>, name: Seq<char>) -> Option<HirExprView>
    decreases block.len(),
{
    if block.len() == 0 {
        None
    } else if block.last() matches HirStmtView::VarDecl { name: d, init: Some(v), mutable: false, .. } && d == name {
        block.last()->VarDecl_init
    } else {
        latest_binding(block.drop_last(), name)
    }
}

/// The target of the function value `arg` as `block` writes it, following at most
/// `fuel` locals; `None` when the fuel runs out.
pub open spec fn site_target(c: BackwardContextView, arg: HirExprView, block: Seq<HirStmtView>, fuel: nat) -> Option<
    Option<TargetView>,
>
    decreases fuel,
{
    match arg.kind {
        HirExprKindView::Closure { name, captures } => Some(Some(TargetView { name, captures })),
        HirExprKindView::Variable(name) => if lookup_local(c.scopes, name) is None {
            Some(
                if c.functions.contains(name) {
                    Some(TargetView { name, captures: Seq::empty() })
                } else {
                    None
                },
            )
        } else {
            match latest_binding(block, name) {
                None => Some(None),
                Some(init) => if fuel == 0 {
                    None
                } else {
                    match site_target(c, init, block, (fuel - 1) as nat) {
                        None => None,
                        Some(Some(t)) => Some(if t.captures.len() == 0 { Some(t) } else { None }),
                        Some(None) => Some(None),
                    }
                },
            }
        },
        _ => Some(None),
    }
}

/// Whether following the locals from `arg` ends.
pub open spec fn resolves(c: BackwardContextView, arg: HirExprView, block: Seq<HirStmtView>) -> bool {
    exists|fuel: nat| #[trigger] site_target(c, arg, block, fuel) is Some
}

/// The target of the function value `arg` as `block` writes it: a closure literal, a
/// function by name, or a local of `block` bound to one of those that captures nothing.
pub open spec fn target_of(c: BackwardContextView, arg: HirExprView, block: Seq<HirStmtView>) -> Option<TargetView> {
    site_target(c, arg, block, choose|fuel: nat| #[trigger] site_target(c, arg, block, fuel) is Some)->0
}

/// Two amounts of fuel that both suffice give the same target.
proof fn lemma_site_target_agrees(
    c: BackwardContextView,
    arg: HirExprView,
    block: Seq<HirStmtView>,
    f: nat,
    g: nat,
)
    requires
        site_target(c, arg, block, f) is Some,
        site_target(c, arg, block, g) is Some,
    ensures
        site_target(c, arg, block, f) == site_target(c, arg, block, g),
    decreases f,
{
    if let HirExprKindView::Variable(name) = arg.kind {
        if lookup_local(c.scopes, name) is Some {
            if let Some(init) = latest_binding(block, name) {
                lemma_site_target_agrees(c, init, block, (f - 1) as nat, (g - 1) as nat);
            }
        }
    }
}

/// Whether `ty` is a function type.
pub open spec fn is_function_type(ty: HirTypeView) -> bool {
    ty is Function
}

/// Reading each capture by name at `span`.
pub open spec fn capture_reads(captures: Seq<(Seq<char>, HirTypeView)>, span: Span) -> Seq<HirExprView> {
    captures.map_values(
        |c: (Seq<char>, HirTypeView)| HirExprView { kind: HirExprKindView::Variable(c.0), ty: c.1, span },
    )
}

/// The error a `@grad` call's specialization gives.
pub open spec fn refusal(function: Seq<char>, construct: Seq<char>, span: Span) -> LoweringErrorView {
    LoweringErrorView::NotDifferentiable { function, construct, span }
}

/// The targets and capture reads of the first `k` argument/parameter pairs: each
/// function-typed argument's target, by its parameter, and the reads of its captures.
pub open spec fn gathered(
    c: BackwardContextView,
    function: Seq<char>,
    args: Seq<HirExprView>,
    params: Seq<Seq<char>>,
    block: Seq<HirStmtView>,
    k: int,
) -> Result<(Seq<(Seq<char>, TargetView)>, Seq<HirExprView>), LoweringErrorView>
    decreases k,
{
    if k <= 0 {
        Ok((Seq::empty(), Seq::empty()))
    } else {
        match gathered(c, function, args, params, block, k - 1) {
            Err(e) => Err(e),
            Ok((targets, reads)) => {
                let arg = args[k - 1];
                if !is_function_type(arg.ty) {
                    Ok((targets, reads))
                } else {
                    match target_of(c, arg, block) {
                        None => Err(refusal(function, UNNAMED_TARGET@, arg.span)),
                        Some(t) => Ok(
                            (targets.push((params[k - 1], t)), reads + capture_reads(t.captures, arg.span)),
                        ),
                    }
                }
            },
        }
    }
}

/// The first recorded specialization of `function` for `targets`.
pub open spec fn known_specialization(
    specs: Seq<SpecializationView>,
    function: Seq<char>,
    targets: Seq<(Seq<char>, TargetView)>,
    k: int,
) -> Option<int>
    decreases k,
{
    if k <= 0 {
        None
    } else {
        match known_specialization(specs, function, targets, k - 1) {
            Some(i) => Some(i),
            None => if specs[k - 1].function == function && specs[k - 1].targets == targets {
                Some(k - 1)
            } else {
                None
            },
        }
    }
}

/// The derivative key a call of `function` through `callee` passing function values
/// runs, the reads of the captures it takes after `args`, and the specializations
/// afterwards.
pub open spec fn specialized(
    c: BackwardContextView,
    function: Seq<char>,
    callee: HirExprView,
    args: Seq<HirExprView>,
    params: Seq<Seq<char>>,
    block: Seq<HirStmtView>,
) -> Result<(Seq<char>, Seq<HirExprView>, Seq<SpecializationView>), LoweringErrorView> {
    if !(callee.kind is Variable) {
        Err(refusal(function, METHOD_FUNCTION_VALUE@, callee.span))
    } else {
        let n = if args.len() < params.len() { args.len() as int } else { params.len() as int };
        match gathered(c, function, args, params, block, n) {
            Err(e) => Err(e),
            Ok((targets, reads)) => {
                let specs = c.specializations;
                match known_specialization(specs, function, targets, specs.len() as int) {
                    Some(i) => Ok((specs[i].key, reads, specs)),
                    None => {
                        let key = function + SPECIALIZATION_INFIX@ + decimal_digits(specs.len());
                        Ok((key, reads, specs.push(SpecializationView { function, key, targets })))
                    },
                }
            },
        }
    }
}

/// The callee of the derivative call replacing a call through `callee`: the function
/// `__<key>__rev`, taking `extra` after its own parameters, or the receiver's
/// `__<method>__rev`.
pub open spec fn reverse_callee_spec(
    callee: HirExprView,
    key: Seq<char>,
    extra: Seq<HirTypeView>,
    pair_ty: HirTypeView,
) -> Result<HirExprView, LoweringErrorView> {
    match callee.kind {
        HirExprKindView::Variable(function) => match callee.ty {
            HirTypeView::Function { params, .. } => Ok(
                HirExprView {
                    kind: HirExprKindView::Variable(REVERSE_PREFIX@ + key + REVERSE_SUFFIX@),
                    ty: HirTypeView::Function { params: params + extra, ret: Box::new(pair_ty) },
                    span: callee.span,
                },
            ),
            _ => Err(LoweringErrorView::Malformed { detail: "'"@ + function + "' is not typed as a function"@ }),
        },
        HirExprKindView::FieldAccess { object, field } => Ok(
            HirExprView {
                kind: HirExprKindView::FieldAccess { object, field: REVERSE_PREFIX@ + field + REVERSE_SUFFIX@ },
                ty: pair_ty,
                span: callee.span,
            },
        ),
        _ => Err(LoweringErrorView::Malformed { detail: "a `@grad` call through neither a name nor a method"@ }),
    }
}

/// `target.__set_grad(bundle.field)`: move one gradient out of the bundle into the slot
/// of the tensor `target` names.
pub open spec fn set_grad_spec(target: HirExprView, bundle: HirExprView, field: Seq<char>, span: Span) -> HirStmtView {
    let gradient = HirExprView {
        kind: HirExprKindView::FieldAccess { object: Box::new(bundle), field },
        ty: referent(target.ty),
        span,
    };
    let slot = HirExprView {
        kind: HirExprKindView::FieldAccess { object: Box::new(target), field: SET_GRAD_METHOD@ },
        ty: HirTypeView::Void,
        span,
    };
    HirStmtView::Expr(
        HirExprView {
            kind: HirExprKindView::Call { callee: Box::new(slot), args: seq![gradient] },
            ty: HirTypeView::Void,
            span,
        },
    )
}

/// The type of the first field of `fields` named `name`.
pub open spec fn field_type(fields: Seq<(Seq<char>, HirTypeView)>, name: Seq<char>) -> Option<HirTypeView>
    decreases fields.len(),
{
    if fields.len() == 0 {
        None
    } else if fields[0].0 == name {
        Some(fields[0].1)
    } else {
        field_type(fields.subrange(1, fields.len() as int), name)
    }
}

/// The place one step below `place`, typed from the struct layouts.
pub open spec fn step_place_spec(
    structs: Map<Seq<char>, Seq<(Seq<char>, HirTypeView)>>,
    place: HirExprView,
    step: PathStepView,
    span: Span,
) -> Option<HirExprView> {
    match (step, referent(place.ty)) {
        (PathStepView::Field(field), HirTypeView::Struct(owner)) => if structs.dom().contains(owner) {
            match field_type(structs[owner], field) {
                Some(ty) => Some(
                    HirExprView {
                        kind: HirExprKindView::FieldAccess { object: Box::new(place), field },
                        ty,
                        span,
                    },
                ),
                None => None,
            }
        } else {
            None
        },
        (PathStepView::Element(position), HirTypeView::Array { element, .. }) => Some(
            HirExprView {
                kind: HirExprKindView::Index {
                    object: Box::new(place),
                    index: Box::new(
                        HirExprView {
                            kind: HirExprKindView::Integer(position as i128),
                            ty: HirTypeView::I64,
                            span,
                        },
                    ),
                },
                ty: *element,
                span,
            },
        ),
        _ => None,
    }
}

/// The place the first `k` steps of `path` name below `root`.
pub open spec fn place_along(
    structs: Map<Seq<char>, Seq<(Seq<char>, HirTypeView)>>,
    root: HirExprView,
    path: Seq<PathStepView>,
    span: Span,
    k: int,
) -> Option<HirExprView>
    decreases k,
{
    if k <= 0 {
        Some(root)
    } else {
        match place_along(structs, root, path, span, k - 1) {
            Some(place) => step_place_spec(structs, place, path[k - 1], span),
            None => None,
        }
    }
}

/// Whether a parameter of type `ty` is differentiated without a `wrt:` list: a mutably
/// borrowed tensor.
pub open spec fn is_differentiated(ty: HirTypeView) -> bool {
    match ty {
        HirTypeView::Reference { inner, mutable } => mutable && *inner is Tensor,
        _ => false,
    }
}

/// Whether the parameter `name`, of type `ty`, is differentiated.
pub open spec fn selects_spec(wrt: WrtView, name: Seq<char>, ty: HirTypeView) -> bool {
    match wrt {
        WrtView::Tensors => is_differentiated(ty),
        WrtView::Listed { params, .. } => params.contains(name),
    }
}

/// The slot writes for the first `k` argument/parameter pairs the selection takes.
pub open spec fn argument_grads(
    args: Seq<HirExprView>,
    names: Seq<Seq<char>>,
    wrt: WrtView,
    bundle: HirExprView,
    span: Span,
    k: int,
) -> Seq<HirStmtView>
    decreases k,
{
    if k <= 0 {
        Seq::empty()
    } else {
        let before = argument_grads(args, names, wrt, bundle, span, k - 1);
        if selects_spec(wrt, names[k - 1], args[k - 1].ty) {
            before.push(set_grad_spec(args[k - 1], bundle, names[k - 1], span))
        } else {
            before
        }
    }
}

/// What a `wrt:` path reaching nothing is refused with.
pub open spec fn unreached_path(path: Seq<PathStepView>) -> LoweringErrorView {
    LoweringErrorView::Malformed {
        detail: "the `wrt:` path '"@ + field_key_spec(path) + "' reaches nothing"@,
    }
}

/// The slot writes for the first `k` receiver fields, and the error of the first path
/// that reaches nothing, where one does.
pub open spec fn field_grads(
    structs: Map<Seq<char>, Seq<(Seq<char>, HirTypeView)>>,
    receiver: HirExprView,
    paths: Seq<Seq<PathStepView>>,
    bundle: HirExprView,
    span: Span,
    k: int,
) -> (Seq<HirStmtView>, Option<LoweringErrorView>)
    decreases k,
{
    if k <= 0 {
        (Seq::empty(), None)
    } else {
        let (before, error) = field_grads(structs, receiver, paths, bundle, span, k - 1);
        if error is Some {
            (before, error)
        } else {
            let path = paths[k - 1];
            match place_along(structs, receiver, path, span, path.len() as int) {
                Some(place) => (before.push(set_grad_spec(place, bundle, field_key_spec(path), span)), None),
                None => (before, Some(unreached_path(path))),
            }
        }
    }
}

/// The text `.backward()` on `loss` is refused with, ending in `rest`.
pub open spec fn backward_detail(loss: Seq<char>, rest: Seq<char>) -> Seq<char> {
    "`.backward()` on '"@ + loss + rest
}

/// The call whose result the last declaration of `loss` in `out` holds, if it holds one.
pub open spec fn loss_call(out: Seq<HirStmtView>, loss: Seq<char>) -> Option<(HirExprView, Seq<HirExprView>)> {
    match declared_position(out, loss) {
        Some(p) => match out[p] {
            HirStmtView::VarDecl { init: Some(init), .. } => match init.kind {
                HirExprKindView::Call { callee, args } => Some((*callee, args)),
                _ => None,
            },
            _ => None,
        },
        None => None,
    }
}

/// Whether every function value the loss call passes has a target `out` resolves: the
/// rewrite follows locals until it reaches one, which ends unless a local is bound,
/// through others, to itself.
pub open spec fn targets_resolve(c: BackwardContextView, out: Seq<HirStmtView>, loss: Seq<char>) -> bool {
    match loss_call(out, loss) {
        Some((_, args)) => forall|j: int|
            0 <= j < args.len() && is_function_type(#[trigger] args[j].ty) ==> resolves(c, args[j], out),
        None => true,
    }
}

/// `out` with the statement at `p` replaced by `first` and `second`.
pub open spec fn spliced(out: Seq<HirStmtView>, p: int, first: HirStmtView, second: HirStmtView) -> Seq<HirStmtView> {
    out.subrange(0, p) + seq![first, second] + out.subrange(p + 1, out.len() as int)
}

/// What rewriting `.backward()` on `loss` at `span`, against the block `out`, gives: the
/// outcome, the lowering state after it, and the block after it.
pub open spec fn backward_outcome(c: BackwardContextView, loss: Seq<char>, span: Span, out: Seq<HirStmtView>) -> (
    Result<(), LoweringErrorView>,
    BackwardContextView,
    Seq<HirStmtView>,
) {
    let refuse = |rest: Seq<char>| LoweringErrorView::Malformed { detail: backward_detail(loss, rest) };
    match declared_position(out, loss) {
        None => (Err(refuse("', which its block did not declare"@)), c, out),
        Some(p) => match out[p] {
            HirStmtView::VarDecl { ty: loss_ty, init, mutable, span: decl_span, .. } => match init {
                None => (Err(refuse("', which has no value"@)), c, out),
                Some(init) => match init.kind {
                    HirExprKindView::Call { callee, args } => match grad_key_spec(c, *callee) {
                        None => (
                            Err(refuse("', which was not bound to a call of a function or method by name"@)),
                            c,
                            out,
                        ),
                        Some(key) => if !c.grad_params.dom().contains(key) {
                            (
                                Err(
                                    LoweringErrorView::Malformed {
                                        detail: backward_detail(loss, "', the result of '"@) + key
                                            + "', which has no derivative"@,
                                    },
                                ),
                                c,
                                out,
                            )
                        } else {
                            let grad = c.grad_params[key];
                            let special = exists|j: int| 0 <= j < args.len() && is_function_type(#[trigger] args[j].ty);
                            let chosen: Result<(Seq<char>, Seq<HirExprView>, Seq<SpecializationView>), LoweringErrorView> =
                                if special {
                                specialized(c, key, *callee, args, grad.names, out)
                            } else {
                                Ok((key, Seq::empty(), c.specializations))
                            };
                            match chosen {
                                Err(e) => (Err(e), c, out),
                                Ok((key, reads, specs)) => {
                                    let counter = (c.backward_counter + 1) as u64;
                                    let c2 = BackwardContextView { specializations: specs, backward_counter: counter, ..c };
                                    let pair = BACKWARD_BINDING_PREFIX@ + decimal_digits(counter as nat);
                                    let bundle_ty = HirTypeView::Struct(BUNDLE_PREFIX@ + key);
                                    let pair_ty = HirTypeView::Tuple(seq![loss_ty, bundle_ty]);
                                    let extra = reads.map_values(|r: HirExprView| r.ty);
                                    match reverse_callee_spec(*callee, key, extra, pair_ty) {
                                        Err(e) => (Err(e), c2, out),
                                        Ok(reverse) => {
                                            let call = HirExprView {
                                                kind: HirExprKindView::Call { callee: Box::new(reverse), args: args + reads },
                                                ty: pair_ty,
                                                span: init.span,
                                            };
                                            let pair_var = HirExprView {
                                                kind: HirExprKindView::Variable(pair),
                                                ty: pair_ty,
                                                span: decl_span,
                                            };
                                            let first = HirStmtView::VarDecl {
                                                name: pair,
                                                ty: pair_ty,
                                                init: Some(call),
                                                mutable: false,
                                                span: decl_span,
                                            };
                                            let second = HirStmtView::VarDecl {
                                                name: loss,
                                                ty: loss_ty,
                                                init: Some(
                                                    HirExprView {
                                                        kind: HirExprKindView::TupleIndex {
                                                            object: Box::new(pair_var),
                                                            index: 0,
                                                        },
                                                        ty: loss_ty,
                                                        span: decl_span,
                                                    },
                                                ),
                                                mutable,
                                                span: decl_span,
                                            };
                                            let bundle = HirExprView {
                                                kind: HirExprKindView::TupleIndex { object: Box::new(pair_var), index: 1 },
                                                ty: bundle_ty,
                                                span,
                                            };
                                            let n = if args.len() < grad.names.len() {
                                                args.len() as int
                                            } else {
                                                grad.names.len() as int
                                            };
                                            let with_args = spliced(out, p, first, second) + argument_grads(
                                                args,
                                                grad.names,
                                                grad.wrt,
                                                bundle,
                                                span,
                                                n,
                                            );
                                            match callee.kind {
                                                HirExprKindView::FieldAccess { object, .. } => {
                                                    let paths = match grad.wrt {
                                                        WrtView::Tensors => Seq::empty(),
                                                        WrtView::Listed { fields, .. } => fields,
                                                    };
                                                    let (pushed, error) = field_grads(
                                                        c.structs,
                                                        *object,
                                                        paths,
                                                        bundle,
                                                        span,
                                                        paths.len() as int,
                                                    );
                                                    (
                                                        match error {
                                                            Some(e) => Err(e),
                                                            None => Ok(()),
                                                        },
                                                        c2,
                                                        with_args + pushed,
                                                    )
                                                },
                                                _ => (Ok(()), c2, with_args),
                                            }
                                        },
                                    }
                                },
                            }
                        },
                    },
                    _ => (Err(refuse("', which was not bound to a call"@)), c, out),
                },
            },
            _ => (Err(refuse("', which its block did not declare"@)), c, out),
        },
    }
}

/// The view of an optional target.
pub open spec fn opt_target_view(t: Option<Target>) -> Option<TargetView> {
    match t {
        Some(t) => Some(t@),
        None => None,
    }
}

/// The type of the local `name`, innermost scope first.
fn local_type<'s>(scopes: &'s Vec<AssocList<String, HirType>>, name: &String) -> (ty: Option<&'s HirType>)
    requires
        forall|i: int| 0 <= i < scopes@.len() ==> (#[trigger] scopes@[i]).wf(),
    ensures
        match ty {
            Some(t) => lookup_local(scopes@.map_values(|s: AssocList<String, HirType>| s.map()), name@) == Some(t@),
            None => lookup_local(scopes@.map_values(|s: AssocList<String, HirType>| s.map()), name@) is None,
        },
{
    let ghost sv = scopes@.map_values(|s: AssocList<String, HirType>| s.map());
    let mut i = scopes.len();
    assert(sv.take(i as int) =~= sv);
    while i > 0
        invariant
            i <= scopes@.len(),
            sv == scopes@.map_values(|s: AssocList<String, HirType>| s.map()),
            forall|j: int| 0 <= j < scopes@.len() ==> (#[trigger] scopes@[j]).wf(),
            lookup_local(sv, name@) == lookup_local(sv.take(i as int), name@),
        decreases i,
    {
        let found = scopes[i - 1].get(name);
        proof {
            let t = sv.take(i as int);
            assert(t.last() == scopes@[i - 1].map());
            assert(t.drop_last() =~= sv.take(i - 1));
        }
        if found.is_some() {
            return found;
        }
        i = i - 1;
    }
    None
}

/// Whether `name` is a local binding of an open scope.
fn is_local(scopes: &Vec<AssocList<String, HirType>>, name: &String) -> (local: bool)
    requires
        forall|i: int| 0 <= i < scopes@.len() ==> (#[trigger] scopes@[i]).wf(),
    ensures
        local == (lookup_local(scopes@.map_values(|s: AssocList<String, HirType>| s.map()), name@) is Some),
{
    local_type(scopes, name).is_some()
}

/// Whether `name` is one of `functions`.
fn is_function(functions: &Vec<String>, name: &String) -> (found: bool)
    ensures
        found == functions@.map_values(|f: String| f@).contains(name@),
{
    let ghost fv = functions@.map_values(|f: String| f@);
    let mut i: usize = 0;
    while i < functions.len()
        invariant
            i <= functions@.len(),
            fv == functions@.map_values(|f: String| f@),
            forall|j: int| 0 <= j < i ==> fv[j] != name@,
        decreases functions@.len() - i,
    {
        if functions[i] == *name {
            assert(fv[i as int] == name@);
            return true;
        }
        i = i + 1;
    }
    proof {
        if fv.contains(name@) {
            let j = choose|j: int| 0 <= j < fv.len() && fv[j] == name@;
            assert(fv[j] != name@);
        }
    }
    false
}

/// The position of the last declaration of `loss` in `out`.
fn find_declaration(out: &Vec<HirStmt>, loss: &str) -> (position: Option<usize>)
    ensures
        match position {
            Some(p) => declared_position(stmts_view(out@), loss@) == Some(p as int),
            None => declared_position(stmts_view(out@), loss@) is None,
        },
{
    let ghost ov = stmts_view(out@);
    let mut i = out.len();
    assert(ov.take(i as int) =~= ov);
    while i > 0
        invariant
            i <= out@.len(),
            ov == stmts_view(out@),
            declared_position(ov, loss@) == declared_position(ov.take(i as int), loss@),
        decreases i,
    {
        proof {
            let t = ov.take(i as int);
            assert(t.last() == ov[i - 1]);
            assert(t.drop_last() =~= ov.take(i - 1));
        }
        match &out[i - 1] {
            HirStmt::VarDecl { name, .. } => {
                if super::methods::same_text(name.as_str(), loss) {
                    return Some(i - 1);
                }
            },
            _ => {},
        }
        i = i - 1;
    }
    None
}

/// The key `callee` names a derivative under.
fn grad_key(c: &BackwardContext, callee: &HirExpr) -> (key: Option<String>)
    requires
        c.wf(),
    ensures
        match key {
            Some(k) => grad_key_spec(c@, callee@) == Some(k@),
            None => grad_key_spec(c@, callee@) is None,
        },
{
    match &callee.kind {
        HirExprKind::Variable(function) => Some(function.clone()),
        HirExprKind::FieldAccess { object, field } => match object.ty.referent() {
            HirType::Struct(owner) => {
                let k = (owner.clone(), field.clone());
                assert(k@ == (owner@, field@));
                assert(callee@.kind == (HirExprKindView::FieldAccess { object: Box::new(object@), field: field@ }));
                assert(referent(object@.ty) == HirTypeView::Struct(owner@));
                match c.impl_methods.get(&k) {
                    Some(key) => Some(key.clone()),
                    None => None,
                }
            },
            _ => None,
        },
        _ => None,
    }
}

/// The value of the last immutable declaration of `name` in `block` that has one.
fn latest_binding_of<'b>(block: &'b Vec<HirStmt>, name: &String) -> (value: Option<&'b HirExpr>)
    ensures
        match value {
            Some(v) => latest_binding(stmts_view(block@), name@) == Some(v@),
            None => latest_binding(stmts_view(block@), name@) is None,
        },
{
    let ghost bv = stmts_view(block@);
    let mut i = block.len();
    assert(bv.take(i as int) =~= bv);
    while i > 0
        invariant
            i <= block@.len(),
            bv == stmts_view(block@),
            latest_binding(bv, name@) == latest_binding(bv.take(i as int), name@),
        decreases i,
    {
        proof {
            let t = bv.take(i as int);
            assert(t.last() == bv[i - 1]);
            assert(t.drop_last() =~= bv.take(i - 1));
        }
        match &block[i - 1] {
            HirStmt::VarDecl { name: declared, init: Some(v), mutable: false, .. } => {
                if *declared == *name {
                    return Some(v);
                }
            },
            _ => {},
        }
        i = i - 1;
    }
    None
}

/// The target of the function value `arg` as `block` writes it, following at most
/// `fuel` locals, which suffice.
fn call_site_target(c: &BackwardContext, arg: &HirExpr, block: &Vec<HirStmt>, Ghost(fuel): Ghost<nat>) -> (target:
    Option<Target>)
    requires
        c.wf(),
        site_target(c@, arg@, stmts_view(block@), fuel) is Some,
    ensures
        opt_target_view(target) == site_target(c@, arg@, stmts_view(block@), fuel)->0,
    decreases fuel,
{
    match &arg.kind {
        HirExprKind::Closure { name, captures } => Some(Target { name: name.clone(), captures: captures.duplicate() }),
        HirExprKind::Variable(name) => {
            if !is_local(&c.scopes, name) {
                if is_function(&c.functions, name) {
                    let t = Target { name: name.clone(), captures: HirBindings::End };
                    assert(t@.captures =~= Seq::<(Seq<char>, HirTypeView)>::empty());
                    Some(t)
                } else {
                    None
                }
            } else {
                match latest_binding_of(block, name) {
                    None => None,
                    Some(init) => {
                        match call_site_target(c, init, block, Ghost((fuel - 1) as nat)) {
                            Some(t) => if t.captures.is_empty() {
                                Some(t)
                            } else {
                                None
                            },
                            None => None,
                        }
                    },
                }
            }
        },
        _ => None,
    }
}

/// Reading each capture of `captures` by name at `span`.
fn capture_reads_of(captures: &HirBindings, span: Span) -> (reads: HirExprs)
    ensures
        reads@ == capture_reads(captures@, span),
    decreases captures,
{
    match captures {
        HirBindings::End => {
            assert(capture_reads(captures@, span) =~= Seq::<HirExprView>::empty());
            HirExprs::End
        },
        HirBindings::Link(name, ty, rest) => {
            let read = HirExpr { kind: HirExprKind::Variable(name.clone()), ty: ty.duplicate(), span };
            let tail = capture_reads_of(rest, span);
            let reads = HirExprs::Link(Box::new(read), Box::new(tail));
            assert(captures@ == seq![(name@, ty@)] + rest@);
            assert(reads@ == seq![read@] + tail@);
            assert forall|i: int| 0 <= i < reads@.len() implies #[trigger] reads@[i] == capture_reads(captures@, span)[i] by {
                if i > 0 {
                    assert(reads@[i] == tail@[i - 1]);
                    assert(captures@[i] == rest@[i - 1]);
                }
            }
            assert(reads@ =~= capture_reads(captures@, span));
            reads
        },
    }
}

/// The number of argument/parameter pairs a call makes.
pub open spec fn pairs(args: Seq<HirExprView>, params: Seq<Seq<char>>) -> int {
    if args.len() < params.len() {
        args.len() as int
    } else {
        params.len() as int
    }
}

/// The view of a list of names.
pub open spec fn names_view(names: Seq<String>) -> Seq<Seq<char>> {
    names.map_values(|n: String| n@)
}

/// Whether every function value among `args` has a target `block` resolves.
pub open spec fn all_resolve(c: BackwardContextView, args: Seq<HirExprView>, block: Seq<HirStmtView>) -> bool {
    forall|j: int| 0 <= j < args.len() && is_function_type(#[trigger] args[j].ty) ==> resolves(c, args[j], block)
}

impl HirExprs {
    /// Whether the list is empty.
    pub fn is_end(&self) -> (end: bool)
        ensures
            end == (self@.len() == 0),
    {
        match self {
            HirExprs::End => true,
            HirExprs::Link(..) => false,
        }
    }
}

/// The targets of the function values among `args`, by the parameter each is passed
/// to, and the reads of their captures.
fn gather(
    c: &BackwardContext,
    function: &String,
    args: &HirExprs,
    params: &Vec<String>,
    block: &Vec<HirStmt>,
) -> (r: Result<(Vec<(String, Target)>, HirExprs), LoweringError>)
    requires
        c.wf(),
        all_resolve(c@, args@, stmts_view(block@)),
    ensures
        match gathered(c@, function@, args@, names_view(params@), stmts_view(block@), pairs(args@, names_view(params@))) {
            Ok((ts, rs)) => r matches Ok((t, x)) && targets_view(t@) == ts && x@ == rs,
            Err(e) => r matches Err(x) && x@ == e,
        },
{
    let ghost av = args@;
    let ghost pv = names_view(params@);
    let ghost bv = stmts_view(block@);
    let mut rest = args;
    let mut k: usize = 0;
    let mut targets: Vec<(String, Target)> = Vec::new();
    let mut reads = HirExprs::End;
    assert(targets_view(targets@) =~= Seq::<(Seq<char>, TargetView)>::empty());
    assert(av.subrange(0, av.len() as int) =~= av);
    while k < params.len() && !rest.is_end()
        invariant
            c.wf(),
            all_resolve(c@, av, bv),
            av == args@,
            pv == names_view(params@),
            bv == stmts_view(block@),
            k <= params@.len(),
            k <= av.len(),
            rest@ == av.subrange(k as int, av.len() as int),
            gathered(c@, function@, av, pv, bv, k as int) == Ok::<
                (Seq<(Seq<char>, TargetView)>, Seq<HirExprView>),
                LoweringErrorView,
            >((targets_view(targets@), reads@)),
        decreases params@.len() - k,
    {
        match rest {
            HirExprs::End => {
                assert(false);
            },
            HirExprs::Link(arg, tail) => {
                proof {
                    assert(rest@ == seq![arg@] + tail@);
                    assert(av[k as int] == rest@[0]);
                    assert(tail@ =~= rest@.subrange(1, rest@.len() as int));
                    assert(tail@ =~= av.subrange(k + 1, av.len() as int));
                    assert(pv[k as int] == params@[k as int]@);
                }
                let is_fn = match &arg.ty {
                    HirType::Function { .. } => true,
                    _ => false,
                };
                if is_fn {
                    let ghost fuel = choose|f: nat| #[trigger] site_target(c@, arg@, bv, f) is Some;
                    proof {
                        assert(is_function_type(av[k as int].ty));
                        assert(resolves(c@, av[k as int], bv));
                    }
                    match call_site_target(c, arg, block, Ghost(fuel)) {
                        None => {
                            proof {
                                assert(gathered(c@, function@, av, pv, bv, k + 1) is Err);
                                lemma_gathered_error_stays(c@, function@, av, pv, bv, k + 1, pairs(av, pv));
                            }
                            return Err(
                                LoweringError::NotDifferentiable {
                                    function: function.clone(),
                                    construct: String::from_str(UNNAMED_TARGET),
                                    span: arg.span,
                                },
                            );
                        },
                        Some(t) => {
                            let more = capture_reads_of(&t.captures, arg.span);
                            reads = reads.concat(more);
                            let ghost before = targets@;
                            targets.push((params[k].clone(), t));
                            assert(targets_view(targets@) =~= targets_view(before).push((pv[k as int], t@)));
                        },
                    }
                }
                rest = tail;
                k = k + 1;
            },
        }
    }
    proof {
        if k < params@.len() {
            assert(rest@.len() == 0);
        }
        assert(k as int == pairs(av, pv));
    }
    Ok((targets, reads))
}

/// Once the gathering fails, it fails with the same error however many more pairs.
proof fn lemma_gathered_error_stays(
    c: BackwardContextView,
    function: Seq<char>,
    args: Seq<HirExprView>,
    params: Seq<Seq<char>>,
    block: Seq<HirStmtView>,
    k: int,
    m: int,
)
    requires
        gathered(c, function, args, params, block, k) is Err,
        0 <= k <= m,
    ensures
        gathered(c, function, args, params, block, m) == gathered(c, function, args, params, block, k),
    decreases m - k,
{
    if k < m {
        lemma_gathered_error_stays(c, function, args, params, block, k, m - 1);
    }
}

/// Whether two target lists are the same.
fn same_targets(a: &Vec<(String, Target)>, b: &Vec<(String, Target)>) -> (same: bool)
    ensures
        same == (targets_view(a@) == targets_view(b@)),
{
    if a.len() != b.len() {
        assert(targets_view(a@).len() != targets_view(b@).len());
        return false;
    }
    let mut i: usize = 0;
    while i < a.len()
        invariant
            a@.len() == b@.len(),
            i <= a@.len(),
            forall|j: int| 0 <= j < i ==> #[trigger] targets_view(a@)[j] == targets_view(b@)[j],
        decreases a@.len() - i,
    {
        let same = a[i].0 == b[i].0 && a[i].1.name == b[i].1.name && a[i].1.captures.same(&b[i].1.captures);
        if !same {
            assert(targets_view(a@)[i as int] != targets_view(b@)[i as int]);
            return false;
        }
        i = i + 1;
    }
    assert(targets_view(a@) =~= targets_view(b@));
    true
}

/// The derivative key a call of `function` through `callee` passing function values
/// runs, and the reads of the captures it takes after `args`; a new specialization is
/// recorded for targets not seen before.
#[verifier::loop_isolation(false)]
fn specialize(
    c: &mut BackwardContext,
    function: &String,
    callee: &HirExpr,
    args: &HirExprs,
    params: &Vec<String>,
    block: &Vec<HirStmt>,
) -> (r: Result<(String, HirExprs), LoweringError>)
    requires
        old(c).wf(),
        all_resolve(old(c)@, args@, stmts_view(block@)),
    ensures
        final(c).wf(),
        match specialized(old(c)@, function@, callee@, args@, names_view(params@), stmts_view(block@)) {
            Ok((key, rs, specs)) => r matches Ok((k, x)) && k@ == key && x@ == rs && final(c)@ == (BackwardContextView {
                specializations: specs,
                ..old(c)@
            }),
            Err(e) => r matches Err(x) && x@ == e && final(c)@ == old(c)@,
        },
{
    let is_variable = match &callee.kind {
        HirExprKind::Variable(_) => true,
        _ => false,
    };
    if !is_variable {
        return Err(
            LoweringError::NotDifferentiable {
                function: function.clone(),
                construct: String::from_str(METHOD_FUNCTION_VALUE),
                span: callee.span,
            },
        );
    }
    let (targets, reads) = match gather(c, function, args, params, block) {
        Ok(found) => found,
        Err(e) => {
            return Err(e);
        },
    };
    let ghost tv = targets_view(targets@);
    let ghost sv = specializations_view(c.specializations@);
    let mut i: usize = 0;
    while i < c.specializations.len()
        invariant
            i <= c.specializations@.len(),
            sv == specializations_view(c.specializations@),
            tv == targets_view(targets@),
            known_specialization(sv, function@, tv, i as int) is None,
        decreases c.specializations@.len() - i,
    {
        let known = &c.specializations[i];
        if known.function == *function && same_targets(&known.targets, &targets) {
            assert(known_specialization(sv, function@, tv, i + 1) == Some(i as int));
            proof {
                lemma_known_stays(sv, function@, tv, i + 1, sv.len() as int);
            }
            return Ok((known.key.clone(), reads));
        }
        assert(known_specialization(sv, function@, tv, i + 1) is None);
        i = i + 1;
    }
    let mut key = function.clone();
    key.append(SPECIALIZATION_INFIX);
    key.append(decimal(c.specializations.len() as u64).as_str());
    assert(key@ =~= function@ + SPECIALIZATION_INFIX@ + decimal_digits(sv.len()));
    let result_key = key.clone();
    c.specializations.push(Specialization { function: function.clone(), key, targets });
    assert(specializations_view(c.specializations@) =~= sv.push(
        SpecializationView { function: function@, key: result_key@, targets: tv },
    ));
    Ok((result_key, reads))
}

/// Once a specialization is found among the first `k`, it stays the one found.
proof fn lemma_known_stays(
    specs: Seq<SpecializationView>,
    function: Seq<char>,
    targets: Seq<(Seq<char>, TargetView)>,
    k: int,
    m: int,
)
    requires
        known_specialization(specs, function, targets, k) is Some,
        k <= m,
    ensures
        known_specialization(specs, function, targets, m) == known_specialization(specs, function, targets, k),
    decreases m - k,
{
    if k < m {
        lemma_known_stays(specs, function, targets, k, m - 1);
    }
}

/// The callee of the derivative call replacing a call through `callee`.
fn reverse_callee(callee: &HirExpr, key: &String, extra: HirTypes, pair_ty: HirType) -> (r: Result<
    HirExpr,
    LoweringError,
>)
    ensures
        match reverse_callee_spec(callee@, key@, extra@, pair_ty@) {
            Ok(v) => r matches Ok(x) && x@ == v,
            Err(e) => r matches Err(x) && x@ == e,
        },
{
    match &callee.kind {
        HirExprKind::Variable(function) => match &callee.ty {
            HirType::Function { params, .. } => {
                let ty = HirType::Function { params: params.duplicate().concat(extra), ret: Box::new(pair_ty) };
                Ok(HirExpr { kind: HirExprKind::Variable(reverse_name(key.as_str())), ty, span: callee.span })
            },
            _ => Err(malformed(concat3("'", function.as_str(), "' is not typed as a function"))),
        },
        HirExprKind::FieldAccess { object, field } => Ok(
            HirExpr {
                kind: HirExprKind::FieldAccess {
                    object: Box::new(object.duplicate()),
                    field: reverse_name(field.as_str()),
                },
                ty: pair_ty,
                span: callee.span,
            },
        ),
        _ => Err(malformed(String::from_str("a `@grad` call through neither a name nor a method"))),
    }
}

/// `target.__set_grad(bundle.field)`.
fn set_grad(target: HirExpr, bundle: &HirExpr, field: String, span: Span) -> (stmt: HirStmt)
    ensures
        stmt@ == set_grad_spec(target@, bundle@, field@, span),
{
    let gradient = HirExpr {
        kind: HirExprKind::FieldAccess { object: Box::new(bundle.duplicate()), field },
        ty: target.ty.referent().duplicate(),
        span,
    };
    let slot = HirExpr {
        kind: HirExprKind::FieldAccess { object: Box::new(target), field: String::from_str(SET_GRAD_METHOD) },
        ty: HirType::Void,
        span,
    };
    let ghost g = gradient@;
    let ghost sl = slot@;
    assert(g == HirExprView {
        kind: HirExprKindView::FieldAccess { object: Box::new(bundle@), field: field@ },
        ty: referent(target@.ty),
        span,
    });
    assert(sl == HirExprView {
        kind: HirExprKindView::FieldAccess { object: Box::new(target@), field: SET_GRAD_METHOD@ },
        ty: HirTypeView::Void,
        span,
    });
    let args = HirExprs::Link(Box::new(gradient), Box::new(HirExprs::End));
    assert(exprs_view(HirExprs::End) =~= Seq::<HirExprView>::empty());
    assert(args@ =~= seq![g]);
    let call = HirExpr { kind: HirExprKind::Call { callee: Box::new(slot), args }, ty: HirType::Void, span };
    assert(call@ == HirExprView {
        kind: HirExprKindView::Call { callee: Box::new(sl), args: seq![g] },
        ty: HirTypeView::Void,
        span,
    });
    HirStmt::Expr(call)
}

/// The type of the first field of `fields` named `name`.
fn field_type_of(fields: &HirBindings, name: &String) -> (ty: Option<HirType>)
    ensures
        match ty {
            Some(t) => field_type(fields@, name@) == Some(t@),
            None => field_type(fields@, name@) is None,
        },
    decreases fields,
{
    match fields {
        HirBindings::End => None,
        HirBindings::Link(n, t, rest) => {
            assert(fields@.subrange(1, fields@.len() as int) =~= rest@);
            if *n == *name {
                Some(t.duplicate())
            } else {
                field_type_of(rest, name)
            }
        },
    }
}

/// The place one step below `place`.
fn step_place(structs: &AssocList<String, HirBindings>, place: HirExpr, step: &PathStep, span: Span) -> (r: Option<
    HirExpr,
>)
    requires
        structs.wf(),
    ensures
        match r {
            Some(x) => step_place_spec(structs.map(), place@, step@, span) == Some(x@),
            None => step_place_spec(structs.map(), place@, step@, span) is None,
        },
{
    let ghost pv = place@;
    match step {
        PathStep::Field(field) => {
            let ty = match place.ty.referent() {
                HirType::Struct(owner) => {
                    assert(referent(pv.ty) == HirTypeView::Struct(owner@));
                    match structs.get(owner) {
                        Some(fields) => field_type_of(fields, field),
                        None => None,
                    }
                },
                other => {
                    assert(referent(pv.ty) == other@);
                    assert(!(referent(pv.ty) is Struct));
                    None
                },
            };
            match ty {
                Some(ty) => {
                    let x = HirExpr { kind: HirExprKind::FieldAccess { object: Box::new(place), field: field.clone() }, ty, span };
                    assert(x@.kind == HirExprKindView::FieldAccess { object: Box::new(pv), field: field@ });
                    Some(x)
                },
                None => None,
            }
        },
        PathStep::Element(position) => {
            let ty = match place.ty.referent() {
                HirType::Array { element, .. } => Some(element.duplicate()),
                _ => None,
            };
            match ty {
                Some(ty) => {
                    let index = HirExpr { kind: HirExprKind::Integer(*position as i128), ty: HirType::I64, span };
                    let ghost iv = index@;
                    assert(iv == HirExprView { kind: HirExprKindView::Integer(*position as i128), ty: HirTypeView::I64, span });
                    let x = HirExpr {
                        kind: HirExprKind::Index { object: Box::new(place), index: Box::new(index) },
                        ty,
                        span,
                    };
                    assert(x@.kind == HirExprKindView::Index { object: Box::new(pv), index: Box::new(iv) });
                    Some(x)
                },
                None => None,
            }
        },
    }
}

/// Once a path reaches nothing, every longer prefix of it reaches nothing.
proof fn lemma_place_none_stays(
    structs: Map<Seq<char>, Seq<(Seq<char>, HirTypeView)>>,
    root: HirExprView,
    path: Seq<PathStepView>,
    span: Span,
    k: int,
    m: int,
)
    requires
        place_along(structs, root, path, span, k) is None,
        0 <= k <= m,
    ensures
        place_along(structs, root, path, span, m) is None,
    decreases m - k,
{
    if k < m {
        lemma_place_none_stays(structs, root, path, span, k, m - 1);
    }
}

/// The place `path` names below `root`, typed step by step from the struct layouts.
#[verifier::loop_isolation(false)]
fn field_place(structs: &AssocList<String, HirBindings>, root: HirExpr, path: &Vec<PathStep>, span: Span) -> (r: Option<
    HirExpr,
>)
    requires
        structs.wf(),
    ensures
        match r {
            Some(x) => place_along(structs.map(), root@, path_view(path@), span, path@.len() as int) == Some(x@),
            None => place_along(structs.map(), root@, path_view(path@), span, path@.len() as int) is None,
        },
{
    let ghost rv = root@;
    let ghost pv = path_view(path@);
    let mut place = root;
    let mut i: usize = 0;
    while i < path.len()
        invariant
            structs.wf(),
            i <= path@.len(),
            pv == path_view(path@),
            place_along(structs.map(), rv, pv, span, i as int) == Some(place@),
        decreases path@.len() - i,
    {
        assert(pv[i as int] == path@[i as int]@);
        let ghost before = place@;
        match step_place(structs, place, &path[i], span) {
            Some(next) => {
                place = next;
            },
            None => {
                proof {
                    assert(step_place_spec(structs.map(), before, pv[i as int], span) is None);
                    assert(place_along(structs.map(), rv, pv, span, i + 1) is None);
                    lemma_place_none_stays(structs.map(), rv, pv, span, i + 1, path@.len() as int);
                }
                return None;
            },
        }
        i = i + 1;
    }
    Some(place)
}

/// Whether some argument is a function value.
fn has_function_value(args: &HirExprs) -> (found: bool)
    ensures
        found == exists|j: int| 0 <= j < args@.len() && is_function_type(#[trigger] args@[j].ty),
    decreases args,
{
    match args {
        HirExprs::End => {
            assert(args@.len() == 0);
            false
        },
        HirExprs::Link(arg, rest) => {
            let here = match &arg.ty {
                HirType::Function { .. } => true,
                _ => false,
            };
            let later = has_function_value(rest);
            proof {
                assert(here == is_function_type(arg@.ty));
                assert(args@ == seq![arg@] + rest@);
                assert(args@[0] == arg@);
                if later {
                    let j = choose|j: int| 0 <= j < rest@.len() && is_function_type(#[trigger] rest@[j].ty);
                    assert(args@[j + 1] == rest@[j]);
                }
                if exists|j: int| 0 <= j < args@.len() && is_function_type(#[trigger] args@[j].ty) {
                    let j = choose|j: int| 0 <= j < args@.len() && is_function_type(#[trigger] args@[j].ty);
                    if j > 0 {
                        assert(rest@[j - 1] == args@[j]);
                    }
                }
            }
            here || later
        },
    }
}

/// The types of `exprs`, in order.
fn types_of(exprs: &HirExprs) -> (types: HirTypes)
    ensures
        types@ == exprs@.map_values(|e: HirExprView| e.ty),
    decreases exprs,
{
    match exprs {
        HirExprs::End => {
            assert(exprs@.map_values(|e: HirExprView| e.ty) =~= Seq::<HirTypeView>::empty());
            HirTypes::End
        },
        HirExprs::Link(e, rest) => {
            let tail = types_of(rest);
            let types = HirTypes::Link(Box::new(e.ty.duplicate()), Box::new(tail));
            assert(exprs@ == seq![e@] + rest@);
            assert(types@ =~= exprs@.map_values(|e: HirExprView| e.ty));
            types
        },
    }
}

/// Whether a parameter of type `ty` is a mutably borrowed tensor.
fn differentiated(ty: &HirType) -> (d: bool)
    ensures
        d == is_differentiated(ty@),
{
    match ty {
        HirType::Reference { inner, mutable } => {
            let tensor = match &**inner {
                HirType::Tensor { .. } => true,
                _ => false,
            };
            assert(ty@ == HirTypeView::Reference { inner: Box::new(inner@), mutable: *mutable });
            assert(tensor == (inner@ is Tensor));
            *mutable && tensor
        },
        _ => false,
    }
}

/// The last declaration of `loss` is a declaration of `loss` within the block.
proof fn lemma_declared_position(out: Seq<HirStmtView>, loss: Seq<char>)
    ensures
        declared_position(out, loss) matches Some(p) ==> (0 <= p < out.len() && (out[p] matches HirStmtView::VarDecl {
            name,
            ..
        } && name == loss)),
    decreases out.len(),
{
    if out.len() > 0 {
        lemma_declared_position(out.drop_last(), loss);
    }
}

/// Once a receiver path reaches nothing, the slot writes stop there with its error.
proof fn lemma_field_error_stays(
    structs: Map<Seq<char>, Seq<(Seq<char>, HirTypeView)>>,
    receiver: HirExprView,
    paths: Seq<Seq<PathStepView>>,
    bundle: HirExprView,
    span: Span,
    k: int,
    m: int,
)
    requires
        field_grads(structs, receiver, paths, bundle, span, k).1 is Some,
        0 <= k <= m,
    ensures
        field_grads(structs, receiver, paths, bundle, span, m) == field_grads(structs, receiver, paths, bundle, span, k),
    decreases m - k,
{
    if k < m {
        lemma_field_error_stays(structs, receiver, paths, bundle, span, k, m - 1);
    }
}

/// Rewrite `.backward()` on `loss`, called at `span`, against the block `out` lowered so
/// far: the last declaration of `loss` is replaced by a call of the derivative and the
/// unpacking of its loss, and one slot write is appended per differentiated argument,
/// then per tensor the method's `wrt:` reaches through its receiver.
#[verifier::loop_isolation(false)]
#[verifier::rlimit(50)]
pub fn lower_backward(c: &mut BackwardContext, loss: &str, span: Span, out: &mut Vec<HirStmt>) -> (r: Result<
    (),
    LoweringError,
>)
    requires
        old(c).wf(),
        old(c).backward_counter < u64::MAX,
        targets_resolve(old(c)@, stmts_view(old(out)@), loss@),
    ensures
        final(c).wf(),
        backward_outcome(old(c)@, loss@, span, stmts_view(old(out)@)).0 == match r {
            Ok(_) => Ok::<(), LoweringErrorView>(()),
            Err(e) => Err(e@),
        },
        final(c)@ == backward_outcome(old(c)@, loss@, span, stmts_view(old(out)@)).1,
        stmts_view(final(out)@) == backward_outcome(old(c)@, loss@, span, stmts_view(old(out)@)).2,
{
    let ghost ov = stmts_view(out@);
    let ghost cv = c@;
    let position = match find_declaration(out, loss) {
        Some(p) => p,
        None => {
            return Err(malformed(concat3("`.backward()` on '", loss, "', which its block did not declare")));
        },
    };
    proof {
        lemma_declared_position(ov, loss@);
    }
    let ghost decl = ov[position as int];
    assert(decl == stmt_view(out@[position as int]));
    let (loss_ty, mutable, decl_span, init_span, callee, args) = match &out[position] {
        HirStmt::VarDecl { ty, init, mutable, span: ds, .. } => match init {
            None => {
                return Err(malformed(concat3("`.backward()` on '", loss, "', which has no value")));
            },
            Some(init) => match &init.kind {
                HirExprKind::Call { callee, args } => {
                    assert(init@.kind == HirExprKindView::Call { callee: Box::new(callee@), args: args@ });
                    (ty.duplicate(), *mutable, *ds, init.span, callee.duplicate(), args.duplicate())
                },
                _ => {
                    assert(!(init@.kind is Call));
                    return Err(malformed(concat3("`.backward()` on '", loss, "', which was not bound to a call")));
                },
            },
        },
        _ => {
            return Err(malformed(concat3("`.backward()` on '", loss, "', which its block did not declare")));
        },
    };
    let ghost init_view = decl->VarDecl_init->0;
    assert(decl matches HirStmtView::VarDecl { ty, mutable: m, span: ds, .. } && ty == loss_ty@ && m == mutable
        && ds == decl_span);
    assert(init_view.span == init_span && init_view.kind == HirExprKindView::Call {
        callee: Box::new(callee@),
        args: args@,
    });
    let key = match grad_key(c, &callee) {
        Some(k) => k,
        None => {
            return Err(
                malformed(
                    concat3("`.backward()` on '", loss, "', which was not bound to a call of a function or method by name"),
                ),
            );
        },
    };
    let names = match c.grad_params.get(&key) {
        Some(grad) => grad.names.clone(),
        None => {
            let mut detail = concat3("`.backward()` on '", loss, "', the result of '");
            detail.append(key.as_str());
            detail.append("', which has no derivative");
            return Err(malformed(detail));
        },
    };
    let ghost grad_view = cv.grad_params[key@];
    assert(names_view(names@) =~= grad_view.names);
    let special = has_function_value(&args);
    let (dkey, reads) = if special {
        proof {
            assert(loss_call(ov, loss@) == Some((callee@, args@)));
            assert(all_resolve(cv, args@, ov));
        }
        match specialize(c, &key, &callee, &args, &names, out) {
            Ok(found) => found,
            Err(e) => {
                return Err(e);
            },
        }
    } else {
        assert(exprs_view(HirExprs::End) =~= Seq::<HirExprView>::empty());
        (key.clone(), HirExprs::End)
    };
    let ghost c1 = c@;
    c.backward_counter = c.backward_counter + 1;
    let ghost c2 = c@;
    assert(c2 == BackwardContextView { backward_counter: c2.backward_counter, ..c1 });
    let mut pair = String::from_str(BACKWARD_BINDING_PREFIX);
    pair.append(decimal(c.backward_counter).as_str());
    let bundle_ty = HirType::Struct(bundle_name(dkey.as_str()));
    let inner = HirTypes::Link(Box::new(bundle_ty.duplicate()), Box::new(HirTypes::End));
    assert(types_view(HirTypes::End) =~= Seq::<HirTypeView>::empty());
    assert(inner@ =~= seq![bundle_ty@]);
    let members = HirTypes::Link(Box::new(loss_ty.duplicate()), Box::new(inner));
    assert(members@ =~= seq![loss_ty@, bundle_ty@]);
    let pair_ty = HirType::Tuple(members);
    assert(pair_ty@ == HirTypeView::Tuple(seq![loss_ty@, bundle_ty@]));
    let extra = types_of(&reads);
    let reverse = match reverse_callee(&callee, &dkey, extra, pair_ty.duplicate()) {
        Ok(found) => found,
        Err(e) => {
            return Err(e);
        },
    };
    let ghost rv = reverse@;
    let call_args = args.duplicate().concat(reads);
    let ghost cav = call_args@;
    let call = HirExpr {
        kind: HirExprKind::Call { callee: Box::new(reverse), args: call_args },
        ty: pair_ty.duplicate(),
        span: init_span,
    };
    assert(call@ == HirExprView {
        kind: HirExprKindView::Call { callee: Box::new(rv), args: cav },
        ty: pair_ty@,
        span: init_span,
    });
    let pair_var = HirExpr { kind: HirExprKind::Variable(pair.clone()), ty: pair_ty.duplicate(), span: decl_span };
    let ghost pvv = pair_var@;
    assert(pvv == HirExprView { kind: HirExprKindView::Variable(pair@), ty: pair_ty@, span: decl_span });
    let ghost callv = call@;
    let first = HirStmt::VarDecl { name: pair, ty: pair_ty.duplicate(), init: Some(call), mutable: false, span: decl_span };
    let loss_value = HirExpr {
        kind: HirExprKind::TupleIndex { object: Box::new(pair_var.duplicate()), index: 0 },
        ty: loss_ty.duplicate(),
        span: decl_span,
    };
    let ghost lvv = loss_value@;
    assert(lvv == HirExprView {
        kind: HirExprKindView::TupleIndex { object: Box::new(pvv), index: 0 },
        ty: loss_ty@,
        span: decl_span,
    });
    let second = HirStmt::VarDecl {
        name: String::from_str(loss),
        ty: loss_ty,
        init: Some(loss_value),
        mutable,
        span: decl_span,
    };
    let ghost fv = first@;
    let ghost sv = second@;
    let ghost before_splice = out@;
    out.remove(position);
    out.insert(position, second);
    out.insert(position, first);
    let ghost base = spliced(ov, position as int, fv, sv);
    assert(stmts_view(out@) =~= base) by {
        assert forall|i: int| 0 <= i < out@.len() implies #[trigger] stmts_view(out@)[i] == base[i] by {
            if i < position {
                assert(out@[i] == before_splice[i]);
            } else if i > position + 1 {
                assert(out@[i] == before_splice[i - 1]);
            }
        }
    }
    let bundle = HirExpr { kind: HirExprKind::TupleIndex { object: Box::new(pair_var), index: 1 }, ty: bundle_ty, span };
    let ghost bv = bundle@;
    let grad = match c.grad_params.get(&key) {
        Some(g) => g,
        None => {
            assert(false);
            return Ok(());
        },
    };
    let ghost av = args@;
    let ghost nv = grad_view.names;
    let ghost wv = grad_view.wrt;
    assert(names_view(grad.names@) =~= nv);
    let ghost n = pairs(av, nv);
    let mut rest = &args;
    let mut k: usize = 0;
    assert(av.subrange(0, av.len() as int) =~= av);
    assert(base + argument_grads(av, nv, wv, bv, span, 0) =~= base);
    while k < grad.names.len() && !rest.is_end()
        invariant
            k <= grad.names@.len(),
            k <= av.len(),
            nv == names_view(grad.names@),
            grad@.wrt == wv,
            rest@ == av.subrange(k as int, av.len() as int),
            bundle@ == bv,
            stmts_view(out@) == base + argument_grads(av, nv, wv, bv, span, k as int),
        decreases grad.names@.len() - k,
    {
        match rest {
            HirExprs::End => {
                assert(false);
            },
            HirExprs::Link(arg, tail) => {
                proof {
                    assert(rest@ == seq![arg@] + tail@);
                    assert(av[k as int] == rest@[0]);
                    assert(tail@ =~= rest@.subrange(1, rest@.len() as int));
                    assert(tail@ =~= av.subrange(k + 1, av.len() as int));
                    assert(nv[k as int] == grad.names@[k as int]@);
                }
                let ghost before = out@;
                if grad.wrt.selects(grad.names[k].as_str(), differentiated(&arg.ty)) {
                    let stmt = set_grad(arg.duplicate(), &bundle, grad.names[k].clone(), span);
                    out.push(stmt);
                    assert(stmts_view(out@) =~= stmts_view(before).push(stmt@));
                }
                rest = tail;
                k = k + 1;
            },
        }
    }
    proof {
        if k < grad.names@.len() {
            assert(rest@.len() == 0);
        }
        assert(k as int == n);
    }
    let ghost with_args = base + argument_grads(av, nv, wv, bv, span, n);
    match &callee.kind {
        HirExprKind::FieldAccess { object, .. } => {
            let fields = grad.wrt.fields();
            let ghost paths = paths_view(fields@);
            let ghost ob = object@;
            let mut i: usize = 0;
            assert(with_args + field_grads(c.structs.map(), ob, paths, bv, span, 0).0 =~= with_args);
            while i < fields.len()
                invariant
                    i <= fields@.len(),
                    paths == paths_view(fields@),
                    bundle@ == bv,
                    c.structs.wf(),
                    field_grads(c.structs.map(), ob, paths, bv, span, i as int).1 is None,
                    stmts_view(out@) == with_args + field_grads(c.structs.map(), ob, paths, bv, span, i as int).0,
                decreases fields@.len() - i,
            {
                assert(paths[i as int] == path_view(fields@[i as int]@));
                let ghost before = out@;
                match field_place(&c.structs, object.duplicate(), &fields[i], span) {
                    None => {
                        proof {
                            assert(field_grads(c.structs.map(), ob, paths, bv, span, i + 1).1 is Some);
                            lemma_field_error_stays(c.structs.map(), ob, paths, bv, span, i + 1, paths.len() as int);
                        }
                        return Err(
                            malformed(concat3("the `wrt:` path '", field_key(&fields[i]).as_str(), "' reaches nothing")),
                        );
                    },
                    Some(place) => {
                        let stmt = set_grad(place, &bundle, field_key(&fields[i]), span);
                        out.push(stmt);
                        assert(stmts_view(out@) =~= stmts_view(before).push(stmt@));
                    },
                }
                i = i + 1;
            }
            Ok(())
        },
        _ => Ok(()),
    }
}

/// The binding a `.backward()` statement is called on, and the statement's span.
pub open spec fn backward_receiver_spec(stmt: Stmt) -> Option<(Seq<char>, Span)> {
    match stmt {
        Stmt::Expr(Expr::Call { func, span, .. }) => match *func {
            Expr::FieldAccess { object, field, .. } => match *object {
                Expr::Identifier(ident) => if field.name@ == BACKWARD_METHOD@ {
                    Some((ident.name@, span))
                } else {
                    None
                },
                _ => None,
            },
            _ => None,
        },
        _ => None,
    }
}

/// The loss a `.backward()` statement is called on, and the statement's span: a call of
/// `backward` on a local tensor. On anything else, such as a struct with a method of its
/// own called `backward`, the statement is an ordinary call.
pub open spec fn backward_statement_spec(c: BackwardContextView, stmt: Stmt) -> Option<(Seq<char>, Span)> {
    match backward_receiver_spec(stmt) {
        Some((name, span)) => match lookup_local(c.scopes, name) {
            Some(HirTypeView::Tensor { .. }) => Some((name, span)),
            _ => None,
        },
        None => None,
    }
}

/// The loss a `.backward()` statement is called on, and the statement's span.
pub fn backward_statement(c: &BackwardContext, stmt: &Stmt) -> (found: Option<(String, Span)>)
    requires
        c.wf(),
    ensures
        match found {
            Some((name, span)) => backward_statement_spec(c@, *stmt) == Some((name@, span)),
            None => backward_statement_spec(c@, *stmt) is None,
        },
{
    let (name, span) = match stmt {
        Stmt::Expr(Expr::Call { func, span, .. }) => match &**func {
            Expr::FieldAccess { object, field, .. } => match &**object {
                Expr::Identifier(ident) => if super::methods::same_text(field.name.as_str(), BACKWARD_METHOD) {
                    (&ident.name, *span)
                } else {
                    return None;
                },
                _ => {
                    return None;
                },
            },
            _ => {
                return None;
            },
        },
        _ => {
            return None;
        },
    };
    match local_type(&c.scopes, name) {
        Some(HirType::Tensor { .. }) => Some((name.clone(), span)),
        _ => None,
    }
}

/// The derivative runs where the call ran: when `.backward()` on `loss` is rewritten,
/// the statements before the declaration of `loss` and the ones after it stay where they
/// were, the declaration's place now calls the derivative on the same arguments the
/// primal call took, first, and the next statement declares `loss` again, at its type,
/// as the derivative's loss; one more `(loss, gradients)` binding has been named.
pub proof fn lemma_derivative_runs_where_the_call_ran(
    c: BackwardContextView,
    loss: Seq<char>,
    span: Span,
    out: Seq<HirStmtView>,
)
    requires
        backward_outcome(c, loss, span, out).0 is Ok,
        c.backward_counter < u64::MAX,
    ensures
        ({
            let p = declared_position(out, loss)->0;
            let after = backward_outcome(c, loss, span, out).2;
            &&& 0 <= p < out.len()
            &&& after.len() >= out.len() + 1
            &&& after.subrange(0, p) == out.subrange(0, p)
            &&& after.subrange(p + 2, out.len() + 1int) == out.subrange(p + 1, out.len() as int)
            &&& loss_call(out, loss) matches Some((_, args)) && after[p] matches HirStmtView::VarDecl {
                init: Some(HirExprView { kind: HirExprKindView::Call { args: passed, .. }, .. }),
                ..
            } && passed.len() >= args.len() && passed.subrange(0, args.len() as int) == args
            &&& out[p] matches HirStmtView::VarDecl { ty, .. } && after[p + 1] matches HirStmtView::VarDecl {
                name,
                ty: t,
                init: Some(HirExprView { kind: HirExprKindView::TupleIndex { index: 0, .. }, .. }),
                ..
            } && name == loss && t == ty
            &&& backward_outcome(c, loss, span, out).1.backward_counter == c.backward_counter + 1
        }),
{
    lemma_declared_position(out, loss);
    let p = declared_position(out, loss)->0;
    let result = backward_outcome(c, loss, span, out);
    let after = result.2;
    if let HirStmtView::VarDecl { ty: loss_ty, init: Some(init), mutable, span: decl_span, .. } = out[p] {
        if let HirExprKindView::Call { callee, args } = init.kind {
            let key = grad_key_spec(c, *callee)->0;
            let grad = c.grad_params[key];
            let special = exists|j: int| 0 <= j < args.len() && is_function_type(#[trigger] args[j].ty);
            let chosen: Result<(Seq<char>, Seq<HirExprView>, Seq<SpecializationView>), LoweringErrorView> = if special {
                specialized(c, key, *callee, args, grad.names, out)
            } else {
                Ok((key, Seq::empty(), c.specializations))
            };
            let (dkey, reads, specs) = chosen->Ok_0;
            let counter = (c.backward_counter + 1) as u64;
            let pair = BACKWARD_BINDING_PREFIX@ + decimal_digits(counter as nat);
            let bundle_ty = HirTypeView::Struct(BUNDLE_PREFIX@ + dkey);
            let pair_ty = HirTypeView::Tuple(seq![loss_ty, bundle_ty]);
            let extra = reads.map_values(|r: HirExprView| r.ty);
            let reverse = reverse_callee_spec(*callee, dkey, extra, pair_ty)->Ok_0;
            let call = HirExprView {
                kind: HirExprKindView::Call { callee: Box::new(reverse), args: args + reads },
                ty: pair_ty,
                span: init.span,
            };
            let pair_var = HirExprView { kind: HirExprKindView::Variable(pair), ty: pair_ty, span: decl_span };
            let first = HirStmtView::VarDecl { name: pair, ty: pair_ty, init: Some(call), mutable: false, span: decl_span };
            let second = HirStmtView::VarDecl {
                name: loss,
                ty: loss_ty,
                init: Some(
                    HirExprView {
                        kind: HirExprKindView::TupleIndex { object: Box::new(pair_var), index: 0 },
                        ty: loss_ty,
                        span: decl_span,
                    },
                ),
                mutable,
                span: decl_span,
            };
            let base = spliced(out, p, first, second);
            assert(after.subrange(0, base.len() as int) == base);
            assert(base[p] == first);
            assert(base[p + 1] == second);
            assert((args + reads).subrange(0, args.len() as int) =~= args);
            assert(after.subrange(0, p) =~= out.subrange(0, p));
            assert(after.subrange(p + 2, out.len() + 1int) =~= out.subrange(p + 1, out.len() as int));
            assert(after.len() >= out.len() + 1);
            assert(loss_call(out, loss) == Some((*callee, args)));
            assert(after[p] == first);
            assert(after[p + 1] == second);
            assert(result.1.backward_counter == counter);
        } else {
            assert(false);
        }
    } else {
        assert(false);
    }
}

/// Whether `ty` is a mutable borrow of a tensor.
pub open spec fn mutably_borrowed_tensor(ty: HirTypeView) -> bool {
    match ty {
        HirTypeView::Reference { inner, mutable: true } => *inner is Tensor,
        _ => false,
    }
}

/// The value whose gradient slot a `target.__set_grad(...)` statement writes.
pub open spec fn slot_write_target(s: HirStmtView) -> Option<HirExprView> {
    match s {
        HirStmtView::Expr(e) => match e.kind {
            HirExprKindView::Call { callee, .. } => match callee.kind {
                HirExprKindView::FieldAccess { object, field } => if field == SET_GRAD_METHOD@ {
                    Some(*object)
                } else {
                    None
                },
                _ => None,
            },
            _ => None,
        },
        _ => None,
    }
}

/// Without a `wrt:` list, a parameter is differentiated exactly when it is a mutable
/// borrow of a tensor.
proof fn lemma_differentiated_is_a_mutable_tensor_borrow(ty: HirTypeView)
    ensures
        is_differentiated(ty) == mutably_borrowed_tensor(ty),
{
}

/// Without a `wrt:` list, the slot writes for the first `k` arguments are one per
/// mutably borrowed tensor among them, and none for any other argument.
proof fn lemma_tensor_selection(
    args: Seq<HirExprView>,
    names: Seq<Seq<char>>,
    bundle: HirExprView,
    span: Span,
    k: int,
)
    requires
        0 <= k <= args.len(),
        k <= names.len(),
    ensures
        ({
            let g = argument_grads(args, names, WrtView::Tensors, bundle, span, k);
            &&& forall|i: int|
                0 <= i < g.len() ==> exists|j: int|
                    0 <= j < k && #[trigger] g[i] == set_grad_spec(args[j], bundle, names[j], span)
                        && mutably_borrowed_tensor(args[j].ty)
            &&& forall|j: int|
                0 <= j < k && mutably_borrowed_tensor(#[trigger] args[j].ty) ==> exists|i: int|
                    0 <= i < g.len() && g[i] == set_grad_spec(args[j], bundle, names[j], span)
        }),
    decreases k,
{
    if k > 0 {
        lemma_tensor_selection(args, names, bundle, span, k - 1);
        let before = argument_grads(args, names, WrtView::Tensors, bundle, span, k - 1);
        let g = argument_grads(args, names, WrtView::Tensors, bundle, span, k);
        let w = set_grad_spec(args[k - 1], bundle, names[k - 1], span);
        lemma_differentiated_is_a_mutable_tensor_borrow(args[k - 1].ty);
        if mutably_borrowed_tensor(args[k - 1].ty) {
            assert(g == before.push(w));
            assert forall|i: int| 0 <= i < g.len() implies exists|j: int|
                0 <= j < k && #[trigger] g[i] == set_grad_spec(args[j], bundle, names[j], span)
                    && mutably_borrowed_tensor(args[j].ty) by {
                if i == before.len() {
                    assert(g[i] == set_grad_spec(args[k - 1], bundle, names[k - 1], span));
                } else {
                    assert(g[i] == before[i]);
                }
            }
            assert forall|j: int| 0 <= j < k && mutably_borrowed_tensor(#[trigger] args[j].ty) implies exists|i: int|
                0 <= i < g.len() && g[i] == set_grad_spec(args[j], bundle, names[j], span) by {
                if j == k - 1 {
                    assert(g[before.len() as int] == w);
                } else {
                    let i = choose|i: int| 0 <= i < before.len() && before[i] == set_grad_spec(args[j], bundle, names[j], span);
                    assert(g[i] == before[i]);
                }
            }
        } else {
            assert(g == before);
        }
    }
}

/// Without a `wrt:` list, `.backward()` writes the gradient slot of exactly the
/// arguments of the loss call that are mutably borrowed tensors: every statement it
/// appends after the derivative call writes the slot of such an argument, and each such
/// argument passed to a parameter gets its slot written.
pub proof fn lemma_without_wrt_only_mutable_tensors_get_gradients(
    c: BackwardContextView,
    loss: Seq<char>,
    span: Span,
    out: Seq<HirStmtView>,
)
    requires
        backward_outcome(c, loss, span, out).0 is Ok,
        derivative_key(c, out, loss) is Some,
        c.grad_params[derivative_key(c, out, loss)->Some_0].wrt == WrtView::Tensors,
    ensures
        ({
            let args = loss_args(out, loss);
            let names = c.grad_params[derivative_key(c, out, loss)->Some_0].names;
            let after = backward_outcome(c, loss, span, out).2;
            &&& after.len() >= out.len() + 1
            &&& forall|i: int|
                out.len() + 1 <= i < after.len() ==> exists|j: int|
                    0 <= j < args.len() && slot_write_target(#[trigger] after[i]) == Some(args[j])
                        && mutably_borrowed_tensor(args[j].ty)
            &&& forall|j: int|
                0 <= j < args.len() && j < names.len() && mutably_borrowed_tensor(#[trigger] args[j].ty) ==> exists|i: int|
                    out.len() + 1 <= i < after.len() && slot_write_target(after[i]) == Some(args[j])
        }),
{
    lemma_declared_position(out, loss);
    let p = declared_position(out, loss)->0;
    let result = backward_outcome(c, loss, span, out);
    let after = result.2;
    if let HirStmtView::VarDecl { ty: loss_ty, init: Some(init), mutable, span: decl_span, .. } = out[p] {
        if let HirExprKindView::Call { callee, args } = init.kind {
            let key = grad_key_spec(c, *callee)->0;
            let grad = c.grad_params[key];
            let special = exists|j: int| 0 <= j < args.len() && is_function_type(#[trigger] args[j].ty);
            let chosen: Result<(Seq<char>, Seq<HirExprView>, Seq<SpecializationView>), LoweringErrorView> = if special {
                specialized(c, key, *callee, args, grad.names, out)
            } else {
                Ok((key, Seq::empty(), c.specializations))
            };
            let (dkey, reads, specs) = chosen->Ok_0;
            let counter = (c.backward_counter + 1) as u64;
            let pair = BACKWARD_BINDING_PREFIX@ + decimal_digits(counter as nat);
            let bundle_ty = HirTypeView::Struct(BUNDLE_PREFIX@ + dkey);
            let pair_ty = HirTypeView::Tuple(seq![loss_ty, bundle_ty]);
            let extra = reads.map_values(|r: HirExprView| r.ty);
            let reverse = reverse_callee_spec(*callee, dkey, extra, pair_ty)->Ok_0;
            let call = HirExprView {
                kind: HirExprKindView::Call { callee: Box::new(reverse), args: args + reads },
                ty: pair_ty,
                span: init.span,
            };
            let pair_var = HirExprView { kind: HirExprKindView::Variable(pair), ty: pair_ty, span: decl_span };
            let first = HirStmtView::VarDecl { name: pair, ty: pair_ty, init: Some(call), mutable: false, span: decl_span };
            let second = HirStmtView::VarDecl {
                name: loss,
                ty: loss_ty,
                init: Some(
                    HirExprView {
                        kind: HirExprKindView::TupleIndex { object: Box::new(pair_var), index: 0 },
                        ty: loss_ty,
                        span: decl_span,
                    },
                ),
                mutable,
                span: decl_span,
            };
            let bundle = HirExprView {
                kind: HirExprKindView::TupleIndex { object: Box::new(pair_var), index: 1 },
                ty: bundle_ty,
                span,
            };
            let n = pairs(args, grad.names);
            let base = spliced(out, p, first, second);
            let g = argument_grads(args, grad.names, grad.wrt, bundle, span, n);
            assert(after =~= base + g);
            assert(base.len() == out.len() + 1);
            lemma_tensor_selection(args, grad.names, bundle, span, n);
            assert forall|i: int| out.len() + 1 <= i < after.len() implies exists|j: int|
                0 <= j < args.len() && slot_write_target(#[trigger] after[i]) == Some(args[j])
                    && mutably_borrowed_tensor(args[j].ty) by {
                let x = i - base.len();
                assert(after[i] == g[x]);
                let j = choose|j: int| 0 <= j < n && #[trigger] g[x] == set_grad_spec(args[j], bundle, grad.names[j], span)
                    && mutably_borrowed_tensor(args[j].ty);
                assert(slot_write_target(g[x]) == Some(args[j]));
            }
            assert forall|j: int| 0 <= j < args.len() && j < grad.names.len() && mutably_borrowed_tensor(#[trigger] args[j].ty)
                implies exists|i: int| out.len() + 1 <= i < after.len() && slot_write_target(after[i]) == Some(args[j]) by {
                let x = choose|x: int| 0 <= x < g.len() && g[x] == set_grad_spec(args[j], bundle, grad.names[j], span);
                assert(after[base.len() + x] == g[x]);
                assert(slot_write_target(g[x]) == Some(args[j]));
            }
        } else {
            assert(false);
        }
    } else {
        assert(false);
    }
}

/// The arguments of the call whose result the last declaration of `loss` holds.
pub open spec fn loss_args(out: Seq<HirStmtView>, loss: Seq<char>) -> Seq<HirExprView> {
    match loss_call(out, loss) {
        Some((_, args)) => args,
        None => Seq::empty(),
    }
}

/// The key of the derivative the loss call names.
pub open spec fn derivative_key(c: BackwardContextView, out: Seq<HirStmtView>, loss: Seq<char>) -> Option<Seq<char>> {
    match loss_call(out, loss) {
        Some((callee, _)) => grad_key_spec(c, callee),
        None => None,
    }
}

} // verus!
