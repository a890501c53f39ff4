use neuro_compiler::lowering::closures::{collect_captures, Expr, MatchArm, Pattern, Stmt};

fn id(name: &str) -> Expr {
    Expr::Identifier(name.to_string())
}

fn names(list: &[&str]) -> Vec<String> {
    list.iter().map(|n| n.to_string()).collect()
}

#[test]
fn a_closure_captures_the_enclosing_locals_it_reads_in_first_read_order() {
    // |x| scale * x + offset + scale
    let body = Expr::Compound(vec![Expr::Compound(vec![id("scale"), id("x")]), id("offset"), id("scale")]);
    let captures = collect_captures(&names(&["x"]), &body, &names(&["offset", "scale", "unused"]));
    assert_eq!(captures, names(&["scale", "offset"]));
}

#[test]
fn functions_and_constants_are_not_captured() {
    // |x| helper(x, LIMIT)
    let body = Expr::Compound(vec![id("helper"), id("x"), id("LIMIT")]);
    assert!(collect_captures(&names(&["x"]), &body, &names(&["y"])).is_empty());
}

#[test]
fn a_name_bound_anywhere_in_the_body_is_never_captured() {
    // || { total + 1; val total = 0; for i in 0..n { acc = acc + i } }
    let body = Expr::Block(vec![
        Stmt::Expr(Expr::Compound(vec![id("total"), Expr::Constant])),
        Stmt::Declare { name: "total".to_string(), init: Some(Expr::Constant) },
        Stmt::ForRange {
            iterator: "i".to_string(),
            start: Expr::Constant,
            end: id("n"),
            body: vec![Stmt::Assign { target: "acc".to_string(), index: None, value: Expr::Compound(vec![id("acc"), id("i")]) }],
        },
    ]);
    let captures = collect_captures(&vec![], &body, &names(&["total", "n", "acc", "i"]));
    assert_eq!(captures, names(&["n", "acc"]));
}

#[test]
fn match_bindings_and_nested_closure_parameters_are_excluded() {
    // |v| match v { Some(inner) if inner > low => (|k| k + inner + high)(1), _ => fallback }
    let body = Expr::Match {
        scrutinee: Box::new(id("v")),
        arms: vec![
            MatchArm {
                patterns: vec![Pattern::Variant(vec![Pattern::Binding("inner".to_string())])],
                guard: Some(Expr::Compound(vec![id("inner"), id("low")])),
                body: Expr::Compound(vec![
                    Expr::Closure { params: names(&["k"]), body: Box::new(Expr::Compound(vec![id("k"), id("inner"), id("high")])) },
                    Expr::Constant,
                ]),
            },
            MatchArm { patterns: vec![Pattern::Ignore], guard: None, body: id("fallback") },
        ],
    };
    let captures = collect_captures(&names(&["v"]), &body, &names(&["inner", "low", "high", "fallback", "k"]));
    assert_eq!(captures, names(&["low", "high", "fallback"]));
}

#[test]
fn branches_and_loops_are_read_in_order() {
    // || { if a { b } else if c { d } else { e }; while f { *g = h } ; for x in xs { x } ; return w }
    let body = Expr::Block(vec![
        Stmt::If {
            condition: id("a"),
            then_block: vec![Stmt::Expr(id("b"))],
            else_ifs: vec![(id("c"), vec![Stmt::Expr(id("d"))])],
            else_block: Some(vec![Stmt::Expr(id("e"))]),
        },
        Stmt::While { condition: id("f"), body: vec![Stmt::Store { pointer: id("g"), value: id("h") }] },
        Stmt::ForEach { iterator: "x".to_string(), iterable: id("xs"), body: vec![Stmt::Expr(id("x"))] },
        Stmt::Loop(vec![Stmt::Exit(Some(id("w")))]),
    ]);
    let all = names(&["a", "b", "c", "d", "e", "f", "g", "h", "x", "xs", "w"]);
    let captures = collect_captures(&vec![], &body, &all);
    assert_eq!(captures, names(&["a", "b", "c", "d", "e", "f", "g", "h", "xs", "w"]));
}

#[test]
fn an_if_expression_reads_its_branches_in_order() {
    let body = Expr::If {
        condition: Box::new(id("p")),
        then_block: vec![Stmt::Expr(id("q"))],
        else_ifs: vec![],
        else_block: None,
    };
    assert_eq!(collect_captures(&vec![], &body, &names(&["q", "p"])), names(&["p", "q"]));
}
