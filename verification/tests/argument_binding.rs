use neuro_compiler::arguments::ast::{Expr, Identifier, Item, Literal, MethodDef, Stmt, Type};
use neuro_compiler::arguments::bind_arguments;
use neuro_compiler::arguments::errors::{ArgumentError, Span};
use neuro_compiler::arguments::signatures::{ParamLabel, Parameter};

fn span() -> Span {
    Span::new(0, 0)
}

fn ident(name: &str) -> Identifier {
    Identifier { name: name.to_string(), span: span() }
}

/// `name: i32`: an ordinary parameter, nameable but not required to be named.
fn implicit(name: &str) -> Parameter {
    Parameter {
        label: ParamLabel::Implicit,
        name: ident(name),
        ty: Type::Named(ident("i32")),
        default: None,
    }
}

/// `external internal: i32`: the caller must write `external:`.
fn external(label: &str, name: &str) -> Parameter {
    Parameter {
        label: ParamLabel::External(ident(label)),
        name: ident(name),
        ty: Type::Named(ident("i32")),
        default: None,
    }
}

/// `_ name: i32`: the caller must pass positionally.
fn suppressed(name: &str) -> Parameter {
    Parameter {
        label: ParamLabel::Suppressed,
        name: ident(name),
        ty: Type::Named(ident("i32")),
        default: None,
    }
}

fn integer(value: i128) -> Expr {
    Expr::Literal(Literal::Integer(value), span())
}

/// One argument as written: its optional call-site name and its value.
type Arg = (Option<Identifier>, Expr);

fn positional(value: i128) -> Arg {
    (None, integer(value))
}

fn named(label: &str, value: i128) -> Arg {
    (Some(ident(label)), integer(value))
}

fn call(callee: Expr, written: Vec<Arg>) -> Expr {
    let mut args = Vec::new();
    let mut arg_labels = Vec::new();
    for (label, value) in written {
        arg_labels.push(label);
        args.push(value);
    }
    if arg_labels.iter().all(Option::is_none) {
        arg_labels.clear();
    }
    Expr::Call { func: Box::new(callee), type_args: Vec::new(), args, arg_labels, span: span() }
}

fn func(name: &str, params: Vec<Parameter>, body: Vec<Stmt>) -> Item {
    Item::Function { name: ident(name), params, where_predicates: Vec::new(), body }
}

fn method(name: &str, has_self: bool, params: Vec<Parameter>) -> MethodDef {
    MethodDef { name: ident(name), has_self, params, body: Some(Vec::new()) }
}

fn impl_block(owner: &str, methods: Vec<MethodDef>) -> Item {
    Item::Impl { owner: ident(owner), where_predicates: Vec::new(), methods }
}

fn main_body(items: &[Item]) -> &Vec<Stmt> {
    match items.last() {
        Some(Item::Function { body, .. }) => body,
        _ => panic!("expected a trailing function item"),
    }
}

fn integers(args: &[Expr]) -> Vec<i128> {
    args.iter()
        .map(|arg| match arg {
            Expr::Literal(Literal::Integer(v), _) => *v,
            other => panic!("expected an integer argument, found {:?}", other),
        })
        .collect()
}

/// The single call in `main`'s body after binding, as the integer literals it holds.
fn bound_values(items: &[Item]) -> Vec<i128> {
    match main_body(items).first() {
        Some(Stmt::Expr(Expr::Call { args, arg_labels, .. })) => {
            assert!(arg_labels.is_empty(), "a label survived binding");
            integers(args)
        }
        _ => panic!("expected a call statement"),
    }
}

/// A program declaring `target` and calling it once from `main`.
fn program(params: Vec<Parameter>, args: Vec<Arg>) -> Vec<Item> {
    vec![
        func("target", params, Vec::new()),
        func("main", Vec::new(), vec![Stmt::Expr(call(Expr::Identifier(ident("target")), args))]),
    ]
}

#[test]
fn a_positional_call_is_left_untouched() {
    let mut items = program(vec![implicit("a"), implicit("b")], vec![positional(1), positional(2)]);
    bind_arguments(&mut items).expect("binding failed");
    assert_eq!(bound_values(&items), vec![1, 2]);
}

#[test]
fn named_arguments_bind_by_name_not_position() {
    let mut items = program(vec![implicit("a"), implicit("b")], vec![named("b", 2), named("a", 1)]);
    bind_arguments(&mut items).expect("binding failed");
    assert_eq!(bound_values(&items), vec![1, 2]);
}

#[test]
fn a_positional_prefix_may_precede_named_arguments() {
    let mut items = program(
        vec![implicit("a"), implicit("b"), implicit("c")],
        vec![positional(1), named("c", 3), named("b", 2)],
    );
    bind_arguments(&mut items).expect("binding failed");
    assert_eq!(bound_values(&items), vec![1, 2, 3]);
}

#[test]
fn a_positional_argument_may_not_follow_a_named_one() {
    let mut items = program(vec![implicit("a"), implicit("b")], vec![named("b", 2), positional(1)]);
    let errors = bind_arguments(&mut items).expect_err("expected a rejection");
    assert!(matches!(errors.as_slice(), [ArgumentError::PositionalAfterNamed { .. }]));
}

#[test]
fn an_unknown_label_is_rejected() {
    let mut items = program(vec![implicit("a")], vec![named("nope", 1)]);
    let errors = bind_arguments(&mut items).expect_err("expected a rejection");
    assert!(matches!(
        errors.as_slice(),
        [ArgumentError::UnknownArgumentLabel { label, .. }] if label == "nope"
    ));
}

#[test]
fn one_parameter_may_not_be_named_twice() {
    let mut items = program(vec![implicit("a"), implicit("b")], vec![named("a", 1), named("a", 2)]);
    let errors = bind_arguments(&mut items).expect_err("expected a rejection");
    assert!(matches!(errors.as_slice(), [ArgumentError::DuplicateArgumentLabel { .. }]));
}

#[test]
fn an_external_label_is_required_at_the_call_site() {
    let mut items = program(
        vec![suppressed("value"), external("min", "lo")],
        vec![positional(5), positional(0)],
    );
    let errors = bind_arguments(&mut items).expect_err("expected a rejection");
    assert!(matches!(
        errors.as_slice(),
        [ArgumentError::MissingArgumentLabel { label, .. }] if label == "min"
    ));
}

#[test]
fn an_external_label_binds_by_its_external_name() {
    let mut items = program(
        vec![suppressed("value"), external("min", "lo"), external("max", "hi")],
        vec![positional(5), named("max", 9), named("min", 0)],
    );
    bind_arguments(&mut items).expect("binding failed");
    assert_eq!(bound_values(&items), vec![5, 0, 9]);
}

#[test]
fn a_suppressed_label_is_not_a_call_site_name() {
    let mut items = program(vec![suppressed("value")], vec![named("value", 1)]);
    let errors = bind_arguments(&mut items).expect_err("expected a rejection");
    assert!(matches!(
        errors.as_slice(),
        [ArgumentError::SuppressedLabel { label, .. }] if label == "value"
    ));
}

#[test]
fn a_wrong_arity_named_call_reports_the_count() {
    let mut items = program(vec![implicit("a"), implicit("b")], vec![named("a", 1)]);
    let errors = bind_arguments(&mut items).expect_err("expected a rejection");
    assert!(matches!(
        errors.as_slice(),
        [ArgumentError::ArgumentCountMismatch { expected: 2, found: 1, .. }]
    ));
}

#[test]
fn a_callee_with_no_declared_names_rejects_a_label() {
    let mut items = vec![func(
        "main",
        Vec::new(),
        vec![Stmt::Expr(call(Expr::Identifier(ident("some_closure")), vec![named("a", 1)]))],
    )];
    let errors = bind_arguments(&mut items).expect_err("expected a rejection");
    assert!(matches!(errors.as_slice(), [ArgumentError::LabelsUnsupported { .. }]));
}

#[test]
fn an_associated_function_binds_by_name() {
    let mut items = vec![
        impl_block("Point", vec![method("build", false, vec![implicit("x"), implicit("y")])]),
        func(
            "main",
            Vec::new(),
            vec![Stmt::Expr(call(
                Expr::Path { owner: ident("Point"), member: ident("build"), span: span() },
                vec![named("y", 2), named("x", 1)],
            ))],
        ),
    ];
    bind_arguments(&mut items).expect("binding failed");
    assert_eq!(bound_values(&items), vec![1, 2]);
}

#[test]
fn an_instance_method_binds_by_name() {
    let mut items = vec![
        impl_block("Counter", vec![method("step", true, vec![implicit("by"), implicit("cap")])]),
        func(
            "main",
            Vec::new(),
            vec![Stmt::Expr(call(
                Expr::FieldAccess {
                    object: Box::new(Expr::Identifier(ident("c"))),
                    field: ident("step"),
                    span: span(),
                },
                vec![named("cap", 9), named("by", 1)],
            ))],
        ),
    ];
    bind_arguments(&mut items).expect("binding failed");
    assert_eq!(bound_values(&items), vec![1, 9]);
}

#[test]
fn two_methods_of_one_name_with_different_parameters_reject_a_label() {
    let mut items = vec![
        impl_block("A", vec![method("step", true, vec![implicit("by")])]),
        impl_block("B", vec![method("step", true, vec![implicit("amount")])]),
        func(
            "main",
            Vec::new(),
            vec![Stmt::Expr(call(
                Expr::FieldAccess {
                    object: Box::new(Expr::Identifier(ident("b"))),
                    field: ident("step"),
                    span: span(),
                },
                vec![named("amount", 1)],
            ))],
        ),
    ];
    let errors = bind_arguments(&mut items).expect_err("expected a rejection");
    assert!(matches!(errors.as_slice(), [ArgumentError::AmbiguousMethodLabels { .. }]));
}

#[test]
fn a_call_nested_in_an_argument_is_bound_too() {
    let mut items = vec![
        func("inner", vec![implicit("p"), implicit("q")], Vec::new()),
        func("target", vec![implicit("a")], Vec::new()),
        func(
            "main",
            Vec::new(),
            vec![Stmt::Expr(call(
                Expr::Identifier(ident("target")),
                vec![(None, call(Expr::Identifier(ident("inner")), vec![named("q", 2), named("p", 1)]))],
            ))],
        ),
    ];
    bind_arguments(&mut items).expect("binding failed");
    let args = match main_body(&items).first() {
        Some(Stmt::Expr(Expr::Call { args, .. })) => args,
        _ => panic!("expected a call statement"),
    };
    match &args[0] {
        Expr::Call { args: inner, arg_labels, .. } => {
            assert!(arg_labels.is_empty(), "a label survived binding");
            assert_eq!(integers(inner), vec![1, 2]);
        }
        _ => panic!("expected a nested call"),
    }
}

/// A call to `target` whose arguments are the given expressions under the given labels.
fn program_with_args(params: Vec<Parameter>, args: Vec<Arg>) -> Vec<Item> {
    program(params, args)
}

/// `effect()`: a call, so an argument that carries one.
fn effect() -> Expr {
    Expr::Call {
        func: Box::new(Expr::Identifier(ident("effect"))),
        type_args: Vec::new(),
        args: Vec::new(),
        arg_labels: Vec::new(),
        span: span(),
    }
}

/// The statements of `main`'s single hoisting block, or a panic when it was not rewritten.
fn hoisted_block(items: &[Item]) -> &Vec<Stmt> {
    match main_body(items).first() {
        Some(Stmt::Expr(Expr::Block { stmts, .. })) => stmts,
        other => panic!("expected a hoisting block, found {:?}", other),
    }
}

#[test]
fn a_reordered_call_with_effects_evaluates_its_arguments_in_source_order() {
    let mut items = program_with_args(
        vec![implicit("a"), implicit("b")],
        vec![(Some(ident("b")), effect()), (Some(ident("a")), Expr::Identifier(ident("x")))],
    );
    bind_arguments(&mut items).expect("binding failed");

    let stmts = hoisted_block(&items);
    assert_eq!(stmts.len(), 3, "two temporaries and the call: {:?}", stmts);
    let names: Vec<String> = stmts
        .iter()
        .filter_map(|s| match s {
            Stmt::VarDecl { name, .. } => Some(name.name.clone()),
            _ => None,
        })
        .collect();
    assert_eq!(
        names,
        vec!["__narg0".to_string(), "__narg1".to_string()],
        "temporaries are declared in the order the arguments were written"
    );

    let (args, arg_labels) = match stmts.last() {
        Some(Stmt::Expr(Expr::Call { args, arg_labels, .. })) => (args, arg_labels),
        _ => panic!("the block must end in the bound call: {:?}", stmts),
    };
    assert!(arg_labels.is_empty(), "a label survived binding");
    let passed: Vec<String> = args
        .iter()
        .map(|a| match a {
            Expr::Identifier(id) => id.name.clone(),
            other => panic!("expected a temporary, found {:?}", other),
        })
        .collect();
    assert_eq!(
        passed,
        vec!["__narg1".to_string(), "__narg0".to_string()],
        "the temporaries are passed in the callee's declaration order"
    );
}

#[test]
fn a_reordered_call_of_plain_values_is_permuted_in_place() {
    let mut items = program_with_args(vec![implicit("a"), implicit("b")], vec![named("b", 2), named("a", 1)]);
    bind_arguments(&mut items).expect("binding failed");
    assert_eq!(bound_values(&items), vec![1, 2]);
}

#[test]
fn a_call_whose_arguments_keep_their_order_is_not_hoisted() {
    let mut items = program_with_args(
        vec![implicit("a"), implicit("b")],
        vec![(None, integer(1)), (Some(ident("b")), effect())],
    );
    bind_arguments(&mut items).expect("binding failed");
    assert!(
        matches!(main_body(&items).first(), Some(Stmt::Expr(Expr::Call { .. }))),
        "the call must be left in place: {:?}",
        main_body(&items).first()
    );
}

#[test]
fn a_hoisted_temporary_carries_its_parameter_type() {
    let mut items = program_with_args(
        vec![implicit("a"), implicit("b")],
        vec![(Some(ident("b")), effect()), (Some(ident("a")), Expr::Identifier(ident("x")))],
    );
    bind_arguments(&mut items).expect("binding failed");
    let stmts = hoisted_block(&items);
    match stmts.first() {
        Some(Stmt::VarDecl { ty, .. }) => assert_eq!(
            ty.as_ref(),
            Some(&Type::Named(ident("i32"))),
            "the temporary is typed by the parameter it binds to, not by its initializer"
        ),
        _ => panic!("expected a temporary: {:?}", stmts),
    }
}

#[test]
fn a_call_nested_in_a_hoisted_argument_is_bound_too() {
    let inner = call(Expr::Identifier(ident("inner")), vec![named("q", 2), named("p", 1)]);
    let mut items = vec![
        func("inner", vec![implicit("p"), implicit("q")], Vec::new()),
        func("target", vec![implicit("a"), implicit("b")], Vec::new()),
        func(
            "main",
            Vec::new(),
            vec![Stmt::Expr(call(
                Expr::Identifier(ident("target")),
                vec![(Some(ident("b")), inner), (Some(ident("a")), Expr::Identifier(ident("x")))],
            ))],
        ),
    ];
    bind_arguments(&mut items).expect("binding failed");
    let stmts = hoisted_block(&items);
    match stmts.first() {
        Some(Stmt::VarDecl { init: Some(Expr::Call { args, arg_labels, .. }), .. }) => {
            assert!(arg_labels.is_empty(), "a label survived binding");
            assert_eq!(integers(args), vec![1, 2]);
        }
        _ => panic!("expected the nested call in the first temporary: {:?}", stmts),
    }
}

#[test]
fn argument_errors_explain_themselves() {
    let at = Span::new(3, 9);
    let count = ArgumentError::ArgumentCountMismatch { callee: "f".to_string(), expected: 2, found: 1, span: at };
    assert_eq!(count.message(), "'f' takes 2 argument(s), but 1 given");
    assert_eq!(count.span(), at);
    let missing = ArgumentError::MissingArgumentLabel { callee: "clamp".to_string(), label: "min".to_string(), span: at };
    assert_eq!(missing.message(), "the 'min' argument of 'clamp' must be named: write `min: <value>`");
    let after = ArgumentError::PositionalAfterNamed { callee: "f".to_string(), label: "b".to_string(), span: at };
    assert_eq!(
        after.message(),
        "in the call to 'f': a positional argument cannot follow a named one; move it before `b:`"
    );
    let unknown = ArgumentError::UnknownArgumentLabel { callee: "f".to_string(), label: "z".to_string(), span: at };
    assert_eq!(unknown.message(), "'f' has no parameter named 'z'");
    let twice = ArgumentError::DuplicateArgumentLabel { callee: "f".to_string(), label: "a".to_string(), span: at };
    assert_eq!(twice.message(), "argument 'a' is given twice in the call to 'f'");
    let unsupported = ArgumentError::LabelsUnsupported { callee: "g".to_string(), span: at };
    assert_eq!(
        unsupported.message(),
        "named arguments are not available here: 'g' has no declared parameter names"
    );
}

#[test]
fn the_error_reports_where_the_call_is() {
    let mut items = program(vec![implicit("a")], vec![named("nope", 1)]);
    let errors = bind_arguments(&mut items).expect_err("expected a rejection");
    assert_eq!(errors[0].span(), span());
}

#[test]
fn a_local_shadows_a_function_of_the_same_name() {
    // `val target = ...; target(b: 1)` calls the local, which declares no names.
    let mut items = vec![
        func("target", vec![implicit("b")], Vec::new()),
        func(
            "main",
            Vec::new(),
            vec![
                Stmt::VarDecl { name: ident("target"), ty: None, init: Some(integer(0)), mutable: false, span: span() },
                Stmt::Expr(call(Expr::Identifier(ident("target")), vec![named("b", 1)])),
            ],
        ),
    ];
    let errors = bind_arguments(&mut items).expect_err("the local declares no names");
    assert!(matches!(errors.as_slice(), [ArgumentError::LabelsUnsupported { .. }]));
}

#[test]
fn a_parameter_shadows_a_function_of_the_same_name() {
    let mut items = vec![
        func("target", vec![implicit("b")], Vec::new()),
        func(
            "main",
            vec![implicit("target")],
            vec![Stmt::Expr(call(Expr::Identifier(ident("target")), vec![named("b", 1)]))],
        ),
    ];
    let errors = bind_arguments(&mut items).expect_err("the parameter declares no names");
    assert!(matches!(errors.as_slice(), [ArgumentError::LabelsUnsupported { .. }]));
}

#[test]
fn every_failing_call_is_reported_in_source_order() {
    let mut items = vec![
        func("target", vec![implicit("a")], Vec::new()),
        func(
            "main",
            Vec::new(),
            vec![
                Stmt::Expr(call(Expr::Identifier(ident("target")), vec![named("x", 1)])),
                Stmt::Expr(call(Expr::Identifier(ident("target")), vec![named("y", 1)])),
            ],
        ),
    ];
    let errors = bind_arguments(&mut items).expect_err("two rejections");
    let labels: Vec<String> = errors
        .iter()
        .map(|e| match e {
            ArgumentError::UnknownArgumentLabel { label, .. } => label.clone(),
            other => panic!("unexpected {:?}", other),
        })
        .collect();
    assert_eq!(labels, vec!["x".to_string(), "y".to_string()]);
}

#[test]
fn a_default_fills_an_omitted_argument() {
    let mut with_default = implicit("b");
    with_default.default = Some(Literal::Integer(7));
    let mut items = program(vec![implicit("a"), with_default], vec![named("a", 1)]);
    bind_arguments(&mut items).expect("the default fills b");
    assert_eq!(bound_values(&items), vec![1, 7]);
}

#[test]
fn calls_in_methods_and_constants_are_bound_too() {
    let mut items = vec![
        func("target", vec![implicit("a"), implicit("b")], Vec::new()),
        Item::Const {
            name: ident("K"),
            value: call(Expr::Identifier(ident("target")), vec![named("b", 2), named("a", 1)]),
        },
        impl_block(
            "T",
            vec![MethodDef {
                name: ident("m"),
                has_self: true,
                params: Vec::new(),
                body: Some(vec![Stmt::Expr(call(Expr::Identifier(ident("target")), vec![named("b", 4), named("a", 3)]))]),
            }],
        ),
    ];
    bind_arguments(&mut items).expect("binding failed");
    match &items[1] {
        Item::Const { value: Expr::Call { args, arg_labels, .. }, .. } => {
            assert!(arg_labels.is_empty());
            assert_eq!(integers(args), vec![1, 2]);
        }
        other => panic!("expected a constant call, found {:?}", other),
    }
    match &items[2] {
        Item::Impl { methods, .. } => match &methods[0].body {
            Some(body) => match &body[0] {
                Stmt::Expr(Expr::Call { args, .. }) => assert_eq!(integers(args), vec![3, 4]),
                other => panic!("expected a call, found {:?}", other),
            },
            None => panic!("the method has a body"),
        },
        other => panic!("expected an impl, found {:?}", other),
    }
}

use neuro_compiler::arguments::ast::MatchArm;

fn labelled_target_call() -> Expr {
    call(Expr::Identifier(ident("target")), vec![named("b", 1)])
}

#[test]
fn a_loop_name_shadows_a_function_inside_the_loop_only() {
    let mut items = vec![
        func("target", vec![implicit("b")], Vec::new()),
        func(
            "main",
            Vec::new(),
            vec![
                Stmt::Loop {
                    header: vec![labelled_target_call()],
                    bound: vec![ident("target")],
                    body: vec![Stmt::Expr(labelled_target_call())],
                    span: span(),
                },
            ],
        ),
    ];
    let errors = bind_arguments(&mut items).expect_err("the loop's own name declares no names");
    assert!(matches!(errors.as_slice(), [ArgumentError::LabelsUnsupported { .. }]));
    match &main_body(&items)[0] {
        Stmt::Loop { header, .. } => match &header[0] {
            Expr::Call { arg_labels, .. } => assert!(arg_labels.is_empty(), "the header call is bound"),
            other => panic!("expected a call, found {:?}", other),
        },
        other => panic!("expected a loop, found {:?}", other),
    }
}

#[test]
fn a_match_arm_binding_shadows_a_function_in_that_arm() {
    let arms = vec![
        MatchArm { bindings: vec![ident("target")], guard: None, body: labelled_target_call() },
        MatchArm { bindings: Vec::new(), guard: Some(labelled_target_call()), body: integer(0) },
    ];
    let mut items = vec![
        func("target", vec![implicit("b")], Vec::new()),
        func(
            "main",
            Vec::new(),
            vec![Stmt::Expr(Expr::Match { scrutinee: Box::new(integer(0)), arms, span: span() })],
        ),
    ];
    let errors = bind_arguments(&mut items).expect_err("the first arm's binding declares no names");
    assert_eq!(errors.len(), 1);
    assert!(matches!(errors.as_slice(), [ArgumentError::LabelsUnsupported { .. }]));
}

#[test]
fn a_val_else_binds_its_pattern_after_the_statement() {
    let mut items = vec![
        func("target", vec![implicit("b")], Vec::new()),
        func(
            "main",
            Vec::new(),
            vec![
                Stmt::ValElse {
                    value: labelled_target_call(),
                    else_binding: Some(ident("target")),
                    else_block: vec![Stmt::Expr(labelled_target_call())],
                    pattern: vec![ident("target")],
                    span: span(),
                },
                Stmt::Expr(labelled_target_call()),
            ],
        ),
    ];
    let errors = bind_arguments(&mut items).expect_err("the else binding and the pattern shadow");
    assert_eq!(errors.len(), 2);
    assert!(errors.iter().all(|e| matches!(e, ArgumentError::LabelsUnsupported { .. })));
}

/// `unknown(label: value)`: a call of a callee no declaration names, with one label.
fn unknown_labelled(callee: &str, label: &str, value: i128) -> Expr {
    call(Expr::Identifier(ident(callee)), vec![named(label, value)])
}

#[test]
fn errors_come_in_the_order_the_calls_are_met_after_rearranging() {
    // target(b: first(x: 1), a: second(y: 2)) with `target(a, b)`: the arguments carry
    // effects and would run out of order, so they are hoisted into temporaries in the
    // order written, and their calls are reported in that order.
    let outer = call(
        Expr::Identifier(ident("target")),
        vec![
            (Some(ident("b")), unknown_labelled("first", "x", 1)),
            (Some(ident("a")), unknown_labelled("second", "y", 2)),
        ],
    );
    let mut items = vec![
        func("target", vec![implicit("a"), implicit("b")], Vec::new()),
        func("main", Vec::new(), vec![Stmt::Expr(outer)]),
    ];
    let errors = bind_arguments(&mut items).unwrap_err();
    assert_eq!(
        errors,
        vec![
            ArgumentError::LabelsUnsupported { callee: "first".to_string(), span: span() },
            ArgumentError::LabelsUnsupported { callee: "second".to_string(), span: span() },
        ]
    );
    match main_body(&items).first() {
        Some(Stmt::Expr(Expr::Block { stmts, .. })) => assert_eq!(stmts.len(), 3),
        other => panic!("expected the hoisted block, found {:?}", other),
    }
}

#[test]
fn a_failing_call_is_reported_before_the_calls_it_holds() {
    // outer(z: inner(w: 1)), neither declared.
    let outer = call(Expr::Identifier(ident("outer")), vec![(Some(ident("z")), unknown_labelled("inner", "w", 1))]);
    let mut items = vec![func("main", Vec::new(), vec![Stmt::Expr(outer)])];
    let errors = bind_arguments(&mut items).unwrap_err();
    assert_eq!(
        errors,
        vec![
            ArgumentError::LabelsUnsupported { callee: "outer".to_string(), span: span() },
            ArgumentError::LabelsUnsupported { callee: "inner".to_string(), span: span() },
        ]
    );
}

#[test]
fn a_call_in_a_hoisted_method_receiver_is_bound_too() {
    // a[g(y: 1, x: 2)].m(b: e(), a: f()): the method call is hoisted, and the call in its
    // receiver's index is bound as well.
    let receiver = Expr::Index {
        object: Box::new(Expr::Identifier(ident("a"))),
        index: Box::new(call(Expr::Identifier(ident("g")), vec![named("y", 1), named("x", 2)])),
        span: span(),
    };
    let callee = Expr::FieldAccess { object: Box::new(receiver), field: ident("m"), span: span() };
    let e = call(Expr::Identifier(ident("e")), Vec::new());
    let f = call(Expr::Identifier(ident("f")), Vec::new());
    let mut items = vec![
        func("g", vec![implicit("x"), implicit("y")], Vec::new()),
        impl_block("Grid", vec![method("m", true, vec![implicit("a"), implicit("b")])]),
        func(
            "main",
            Vec::new(),
            vec![Stmt::Expr(call(callee, vec![(Some(ident("b")), e), (Some(ident("a")), f)]))],
        ),
    ];
    bind_arguments(&mut items).expect("binding failed");
    let stmts = hoisted_block(&items);
    assert_eq!(stmts.len(), 3, "two temporaries and the call: {:?}", stmts);
    match stmts.last() {
        Some(Stmt::Expr(Expr::Call { func, arg_labels, .. })) => {
            assert!(arg_labels.is_empty(), "a label survived binding");
            match &**func {
                Expr::FieldAccess { object, .. } => match &**object {
                    Expr::Index { index, .. } => match &**index {
                        Expr::Call { args, arg_labels, .. } => {
                            assert!(arg_labels.is_empty(), "the receiver's call kept its labels");
                            assert_eq!(integers(args), vec![2, 1]);
                        }
                        other => panic!("expected the call in the index, found {:?}", other),
                    },
                    other => panic!("expected an index receiver, found {:?}", other),
                },
                other => panic!("expected a method callee, found {:?}", other),
            }
        }
        _ => panic!("the block must end in the bound call: {:?}", stmts),
    }
}

#[test]
fn an_omitted_argument_takes_its_declared_default_value() {
    let mut with_default = implicit("b");
    with_default.default = Some(Literal::Integer(42));
    let mut items = program(vec![implicit("a"), with_default, implicit("c")], vec![named("c", 9), named("a", 5)]);
    bind_arguments(&mut items).expect("the default fills b");
    assert_eq!(bound_values(&items), vec![5, 42, 9]);
}

#[test]
fn a_call_bound_by_name_keeps_no_label_list() {
    let mut items = program(vec![implicit("a"), implicit("b")], vec![named("a", 1), named("b", 2)]);
    bind_arguments(&mut items).expect("binding failed");
    match main_body(&items).first() {
        Some(Stmt::Expr(Expr::Call { arg_labels, .. })) => assert_eq!(arg_labels.len(), 0),
        other => panic!("expected a call statement, found {:?}", other),
    }
}

/// `target(b: 2, a: 1)`, a labelled call written where a predicate stands.
fn labelled_predicate() -> Expr {
    call(Expr::Identifier(ident("target")), vec![named("b", 2), named("a", 1)])
}

/// The integers of a bound predicate call, which must keep no label.
fn predicate_values(predicate: &Expr) -> Vec<i128> {
    match predicate {
        Expr::Call { args, arg_labels, .. } => {
            assert!(arg_labels.is_empty(), "a label survived binding");
            integers(args)
        }
        other => panic!("expected a call, found {:?}", other),
    }
}

#[test]
fn calls_in_where_clauses_are_bound_too() {
    let mut items = vec![
        func("target", vec![implicit("a"), implicit("b")], Vec::new()),
        Item::Function {
            name: ident("constrained"),
            params: Vec::new(),
            where_predicates: vec![labelled_predicate()],
            body: Vec::new(),
        },
        Item::Struct { name: ident("Grid"), where_predicates: vec![labelled_predicate()] },
        Item::Impl { owner: ident("Grid"), where_predicates: vec![labelled_predicate()], methods: Vec::new() },
    ];
    bind_arguments(&mut items).expect("binding failed");
    for item in &items[1..] {
        let predicates = match item {
            Item::Function { where_predicates, .. } => where_predicates,
            Item::Struct { where_predicates, .. } => where_predicates,
            Item::Impl { where_predicates, .. } => where_predicates,
            other => panic!("unexpected declaration {:?}", other),
        };
        assert_eq!(predicate_values(&predicates[0]), vec![1, 2]);
    }
}

#[test]
fn a_failing_call_in_a_where_clause_is_reported() {
    let mut items = vec![Item::Struct {
        name: ident("Grid"),
        where_predicates: vec![unknown_labelled("bound", "x", 1)],
    }];
    let errors = bind_arguments(&mut items).unwrap_err();
    assert_eq!(errors, vec![ArgumentError::LabelsUnsupported { callee: "bound".to_string(), span: span() }]);
}
