use neuro_compiler::arguments::assoc::AssocList;
use neuro_compiler::arguments::ast::{Expr, Identifier, Stmt};
use neuro_compiler::arguments::errors::Span;
use neuro_compiler::lowering::autodiff::{GradParams, PathStep, Wrt};
use neuro_compiler::lowering::backward::{lower_backward, BackwardContext, Specialization};
use neuro_compiler::lowering::hir::{HirBindings, HirExpr, HirExprKind, HirExprs, HirStmt, HirType, HirTypes};
use neuro_compiler::lowering::LoweringError;

fn span() -> Span {
    Span::new(0, 0)
}

fn tensor() -> HirType {
    HirType::Tensor { element: Box::new(HirType::Named("f32".to_string())) }
}

fn mut_tensor() -> HirType {
    HirType::Reference { inner: Box::new(tensor()), mutable: true }
}

fn var(name: &str, ty: HirType) -> HirExpr {
    HirExpr { kind: HirExprKind::Variable(name.to_string()), ty, span: span() }
}

fn list(exprs: Vec<HirExpr>) -> HirExprs {
    let mut out = HirExprs::End;
    for e in exprs.into_iter().rev() {
        out = HirExprs::Link(Box::new(e), Box::new(out));
    }
    out
}

fn types(tys: Vec<HirType>) -> HirTypes {
    let mut out = HirTypes::End;
    for t in tys.into_iter().rev() {
        out = HirTypes::Link(Box::new(t), Box::new(out));
    }
    out
}

fn exprs_of(list: &HirExprs) -> Vec<&HirExpr> {
    let mut out = Vec::new();
    let mut rest = list;
    while let HirExprs::Link(e, tail) = rest {
        out.push(&**e);
        rest = tail;
    }
    out
}

fn fn_type(params: Vec<HirType>, ret: HirType) -> HirType {
    HirType::Function { params: types(params), ret: Box::new(ret) }
}

fn call(callee: HirExpr, args: Vec<HirExpr>, ty: HirType) -> HirExpr {
    HirExpr { kind: HirExprKind::Call { callee: Box::new(callee), args: list(args) }, ty, span: span() }
}

fn decl(name: &str, ty: HirType, init: HirExpr) -> HirStmt {
    HirStmt::VarDecl { name: name.to_string(), ty, init: Some(init), mutable: false, span: span() }
}

fn context() -> BackwardContext {
    BackwardContext {
        scopes: Vec::new(),
        functions: vec!["f".to_string()],
        structs: AssocList::new(),
        impl_methods: AssocList::new(),
        grad_params: AssocList::new(),
        specializations: Vec::<Specialization>::new(),
        backward_counter: 0,
    }
}

fn name_of(e: &HirExpr) -> &str {
    match &e.kind {
        HirExprKind::Variable(n) => n,
        other => panic!("expected a variable, found {:?}", other),
    }
}

/// `val loss = f(x, w)` with `f` differentiating its mutably borrowed tensors.
fn function_block() -> Vec<HirStmt> {
    let f = var("f", fn_type(vec![HirType::I64, mut_tensor()], HirType::Named("f32".to_string())));
    let loss_call = call(f, vec![var("x", HirType::I64), var("w", mut_tensor())], HirType::Named("f32".to_string()));
    vec![decl("loss", HirType::Named("f32".to_string()), loss_call)]
}

fn function_context() -> BackwardContext {
    let mut c = context();
    c.grad_params.insert(
        "f".to_string(),
        GradParams { names: vec!["x".to_string(), "w".to_string()], wrt: Wrt::Tensors },
    );
    c
}

/// The field and receiver of a `target.__set_grad(bundle.field)` statement.
fn slot_write(stmt: &HirStmt) -> (&HirExpr, &str) {
    match stmt {
        HirStmt::Expr(HirExpr { kind: HirExprKind::Call { callee, args }, .. }) => {
            let target = match &callee.kind {
                HirExprKind::FieldAccess { object, field } => {
                    assert_eq!(field, "__set_grad");
                    &**object
                }
                other => panic!("expected a slot write, found {:?}", other),
            };
            let args = exprs_of(args);
            assert_eq!(args.len(), 1);
            let field = match &args[0].kind {
                HirExprKind::FieldAccess { field, .. } => field.as_str(),
                other => panic!("expected a gradient read, found {:?}", other),
            };
            (target, field)
        }
        other => panic!("expected a statement calling a method, found {:?}", other),
    }
}

#[test]
fn a_backward_call_runs_the_derivative_and_parks_each_gradient() {
    let mut c = function_context();
    let mut out = function_block();
    lower_backward(&mut c, "loss", span(), &mut out).expect("lowering failed");
    assert_eq!(c.backward_counter, 1);
    assert_eq!(out.len(), 3);
    match &out[0] {
        HirStmt::VarDecl { name, init: Some(HirExpr { kind: HirExprKind::Call { callee, args }, ty, .. }), mutable, .. } => {
            assert_eq!(name, "__backward_1");
            assert!(!mutable);
            assert_eq!(name_of(callee), "__f__rev");
            let passed: Vec<&str> = exprs_of(args).into_iter().map(name_of).collect();
            assert_eq!(passed, vec!["x", "w"]);
            match ty {
                HirType::Tuple(members) => match members {
                    HirTypes::Link(_, rest) => match &**rest {
                        HirTypes::Link(bundle, _) => {
                            assert!(matches!(&**bundle, HirType::Struct(n) if n == "GradsOf_f"))
                        }
                        other => panic!("expected the bundle type, found {:?}", other),
                    },
                    other => panic!("expected the loss type, found {:?}", other),
                },
                other => panic!("expected a pair type, found {:?}", other),
            }
        }
        other => panic!("expected the derivative call, found {:?}", other),
    }
    match &out[1] {
        HirStmt::VarDecl { name, init: Some(HirExpr { kind: HirExprKind::TupleIndex { object, index }, .. }), .. } => {
            assert_eq!(name, "loss");
            assert_eq!(*index, 0);
            assert_eq!(name_of(object), "__backward_1");
        }
        other => panic!("expected the loss unpacked, found {:?}", other),
    }
    let (target, field) = slot_write(&out[2]);
    assert_eq!(name_of(target), "w");
    assert_eq!(field, "w");
}

#[test]
fn a_backward_on_an_undeclared_loss_is_malformed() {
    let mut c = function_context();
    let mut out = function_block();
    let error = lower_backward(&mut c, "other", span(), &mut out).unwrap_err();
    assert_eq!(
        error,
        LoweringError::Malformed { detail: "`.backward()` on 'other', which its block did not declare".to_string() }
    );
    assert_eq!(out.len(), 1);
    assert_eq!(c.backward_counter, 0);
}

#[test]
fn a_backward_on_a_function_without_derivative_is_malformed() {
    let mut c = context();
    let mut out = function_block();
    let error = lower_backward(&mut c, "loss", span(), &mut out).unwrap_err();
    assert_eq!(
        error,
        LoweringError::Malformed {
            detail: "`.backward()` on 'loss', the result of 'f', which has no derivative".to_string()
        }
    );
}

#[test]
fn a_backward_on_a_value_not_bound_to_a_call_is_malformed() {
    let mut c = function_context();
    let mut out = vec![decl("loss", HirType::I64, var("x", HirType::I64))];
    let error = lower_backward(&mut c, "loss", span(), &mut out).unwrap_err();
    assert_eq!(
        error,
        LoweringError::Malformed { detail: "`.backward()` on 'loss', which was not bound to a call".to_string() }
    );
}

/// `val loss = m.step(x)` on a `Model` whose `step` differentiates `self.w` and `self.layers[1]`.
fn method_setup(fields: Vec<Vec<PathStep>>) -> (BackwardContext, Vec<HirStmt>) {
    let mut c = context();
    c.impl_methods.insert(("Model".to_string(), "step".to_string()), "Model__step".to_string());
    c.grad_params.insert(
        "Model__step".to_string(),
        GradParams { names: vec!["x".to_string()], wrt: Wrt::Listed { params: Vec::new(), fields } },
    );
    let layers = HirType::Array { element: Box::new(tensor()), size: 2 };
    c.structs.insert(
        "Model".to_string(),
        HirBindings::Link(
            "w".to_string(),
            Box::new(tensor()),
            Box::new(HirBindings::Link("layers".to_string(), Box::new(layers), Box::new(HirBindings::End))),
        ),
    );
    let receiver = var("m", HirType::Struct("Model".to_string()));
    let callee = HirExpr {
        kind: HirExprKind::FieldAccess { object: Box::new(receiver), field: "step".to_string() },
        ty: HirType::Named("f32".to_string()),
        span: span(),
    };
    let out = vec![decl("loss", HirType::Named("f32".to_string()), call(callee, vec![var("x", tensor())], HirType::Named("f32".to_string())))];
    (c, out)
}

#[test]
fn a_method_backward_parks_the_gradients_of_the_receiver_fields_it_names() {
    let (mut c, mut out) = method_setup(vec![
        vec![PathStep::Field("w".to_string())],
        vec![PathStep::Field("layers".to_string()), PathStep::Element(1)],
    ]);
    lower_backward(&mut c, "loss", span(), &mut out).expect("lowering failed");
    assert_eq!(out.len(), 4);
    match &out[0] {
        HirStmt::VarDecl { init: Some(HirExpr { kind: HirExprKind::Call { callee, .. }, .. }), .. } => match &callee.kind {
            HirExprKind::FieldAccess { object, field } => {
                assert_eq!(field, "__step__rev");
                assert_eq!(name_of(object), "m");
            }
            other => panic!("expected the receiver's derivative method, found {:?}", other),
        },
        other => panic!("expected the derivative call, found {:?}", other),
    }
    let (target, field) = slot_write(&out[2]);
    assert_eq!(field, "self__w");
    assert!(matches!(&target.kind, HirExprKind::FieldAccess { field, .. } if field == "w"));
    let (target, field) = slot_write(&out[3]);
    assert_eq!(field, "self__layers__1");
    match &target.kind {
        HirExprKind::Index { index, .. } => assert!(matches!(index.kind, HirExprKind::Integer(1))),
        other => panic!("expected an element place, found {:?}", other),
    }
}

#[test]
fn a_receiver_path_reaching_nothing_is_malformed() {
    let (mut c, mut out) = method_setup(vec![vec![PathStep::Field("bias".to_string())]]);
    let error = lower_backward(&mut c, "loss", span(), &mut out).unwrap_err();
    assert_eq!(
        error,
        LoweringError::Malformed { detail: "the `wrt:` path 'self__bias' reaches nothing".to_string() }
    );
    assert_eq!(out.len(), 2, "the derivative call is already in place");
}

#[test]
fn a_closure_argument_specializes_the_derivative_and_passes_its_captures() {
    let mut c = function_context();
    let closure_ty = fn_type(vec![HirType::I64], HirType::I64);
    let closure = HirExpr {
        kind: HirExprKind::Closure {
            name: "__closure_0".to_string(),
            captures: HirBindings::Link("scale".to_string(), Box::new(HirType::I64), Box::new(HirBindings::End)),
        },
        ty: closure_ty.duplicate(),
        span: span(),
    };
    let f = var("f", fn_type(vec![closure_ty.duplicate(), mut_tensor()], HirType::Named("f32".to_string())));
    let loss_call = call(f, vec![closure, var("w", mut_tensor())], HirType::Named("f32".to_string()));
    let mut out = vec![decl("loss", HirType::Named("f32".to_string()), loss_call)];
    lower_backward(&mut c, "loss", span(), &mut out).expect("lowering failed");
    assert_eq!(c.specializations.len(), 1);
    assert_eq!(c.specializations[0].key, "f__with0");
    match &out[0] {
        HirStmt::VarDecl { init: Some(HirExpr { kind: HirExprKind::Call { callee, args }, .. }), .. } => {
            assert_eq!(name_of(callee), "__f__with0__rev");
            let passed = exprs_of(args);
            assert_eq!(passed.len(), 3);
            assert_eq!(name_of(passed[2]), "scale");
        }
        other => panic!("expected the derivative call, found {:?}", other),
    }
}

#[test]
fn a_function_value_without_a_named_target_is_not_differentiable() {
    let mut c = function_context();
    let value_ty = fn_type(vec![HirType::I64], HirType::I64);
    let value = HirExpr { kind: HirExprKind::Integer(0), ty: value_ty, span: Span::new(3, 4) };
    let f = var("f", fn_type(vec![HirType::I64, mut_tensor()], HirType::Named("f32".to_string())));
    let loss_call = call(f, vec![value, var("w", mut_tensor())], HirType::Named("f32".to_string()));
    let mut out = vec![decl("loss", HirType::Named("f32".to_string()), loss_call)];
    let error = lower_backward(&mut c, "loss", span(), &mut out).unwrap_err();
    assert!(matches!(
        error,
        LoweringError::NotDifferentiable { ref function, span: s, .. } if function == "f" && s == Span::new(3, 4)
    ));
    assert_eq!(c.backward_counter, 0);
}

fn backward_call_on(name: &str) -> Stmt {
    let ident = |n: &str| Identifier { name: n.to_string(), span: span() };
    Stmt::Expr(Expr::Call {
        func: Box::new(Expr::FieldAccess {
            object: Box::new(Expr::Identifier(ident(name))),
            field: ident("backward"),
            span: span(),
        }),
        type_args: Vec::new(),
        args: Vec::new(),
        arg_labels: Vec::new(),
        span: Span::new(7, 9),
    })
}

#[test]
fn a_backward_statement_is_a_backward_call_on_a_local_tensor() {
    let mut c = context();
    let mut scope = AssocList::new();
    scope.insert("loss".to_string(), tensor());
    scope.insert("model".to_string(), HirType::Struct("Model".to_string()));
    c.scopes.push(scope);
    assert_eq!(
        neuro_compiler::lowering::backward::backward_statement(&c, &backward_call_on("loss")),
        Some(("loss".to_string(), Span::new(7, 9)))
    );
    assert_eq!(neuro_compiler::lowering::backward::backward_statement(&c, &backward_call_on("model")), None);
    assert_eq!(neuro_compiler::lowering::backward::backward_statement(&c, &backward_call_on("unknown")), None);
}
