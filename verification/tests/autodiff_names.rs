use neuro_compiler::arguments::assoc::AssocList;
use neuro_compiler::lowering::autodiff::{
    is_grad,
    bundle_name, field_key, field_path, repeats, reverse_name, unchecked_wrt, wrt_of, AttrArg,
    AttrValue, Attribute, GradParams, PathExpr, PathStep, Wrt,
};
use neuro_compiler::lowering::LoweringError;

fn ident(text: &str) -> PathExpr {
    PathExpr::Identifier(text.to_string())
}

fn field(object: PathExpr, name: &str) -> PathExpr {
    PathExpr::FieldAccess { object: Box::new(object), field: name.to_string() }
}

fn grad(named: Vec<AttrArg>) -> Attribute {
    Attribute { name: "grad".to_string(), named }
}

fn wrt(entries: Vec<PathExpr>) -> AttrArg {
    AttrArg { label: "wrt".to_string(), value: AttrValue::List(entries) }
}

#[test]
fn the_derivative_and_bundle_are_named_after_the_function() {
    assert_eq!(reverse_name("loss"), "__loss__rev");
    assert_eq!(bundle_name("loss"), "GradsOf_loss");
    assert_eq!(bundle_name("Model__forward"), "GradsOf_Model__forward");
}

#[test]
fn a_field_path_names_its_bundle_field() {
    assert_eq!(field_key(&vec![]), "self");
    let path = vec![PathStep::Field("encoder".to_string()), PathStep::Field("w".to_string())];
    assert_eq!(field_key(&path), "self__encoder__w");
    let path = vec![PathStep::Field("heads".to_string()), PathStep::Element(1)];
    assert_eq!(field_key(&path), "self__heads__1");
}

#[test]
fn repeats_finds_a_letter_used_twice() {
    assert!(repeats(&vec![0, 1, 0]));
    assert!(!repeats(&vec![0, 1, 2]));
    assert!(!repeats(&vec![]));
}

#[test]
fn a_field_path_is_rooted_at_self() {
    let path = field(field(ident("self"), "encoder"), "w");
    assert_eq!(
        field_path(&path),
        Some(vec![PathStep::Field("encoder".to_string()), PathStep::Field("w".to_string())])
    );
    let indexed = PathExpr::Index { object: Box::new(field(ident("self"), "heads")), literal: Some(2) };
    assert_eq!(field_path(&indexed), Some(vec![PathStep::Field("heads".to_string()), PathStep::Element(2)]));
    assert_eq!(field_path(&field(ident("other"), "w")), None);
    let negative = PathExpr::Index { object: Box::new(ident("self")), literal: Some(-1) };
    assert_eq!(field_path(&negative), None);
    let computed = PathExpr::Index { object: Box::new(ident("self")), literal: None };
    assert_eq!(field_path(&computed), None);
}

#[test]
fn without_wrt_every_tensor_is_differentiated() {
    let selection = Wrt::of(&vec![grad(vec![])]).expect("no list");
    assert_eq!(selection, Wrt::Tensors);
    assert!(selection.selects("x", true));
    assert!(!selection.selects("x", false));
    assert!(selection.fields().is_empty());
    assert_eq!(Wrt::of(&vec![]).expect("no attribute"), Wrt::Tensors);
}

#[test]
fn a_wrt_list_names_parameters_and_fields() {
    let entries = vec![ident("x"), field(ident("self"), "w"), ident("self")];
    let selection = Wrt::of(&vec![grad(vec![wrt(entries)])]).expect("checked list");
    assert_eq!(
        selection,
        Wrt::Listed {
            params: vec!["x".to_string()],
            fields: vec![vec![PathStep::Field("w".to_string())], vec![]],
        }
    );
    assert!(selection.selects("x", false));
    assert!(!selection.selects("y", true));
    assert_eq!(selection.fields().len(), 2);
}

#[test]
fn only_a_grad_attribute_selects() {
    let other = Attribute { name: "inline".to_string(), named: vec![wrt(vec![ident("x")])] };
    assert_eq!(Wrt::of(&vec![other]).expect("ignored"), Wrt::Tensors);
}

#[test]
fn an_unchecked_wrt_entry_is_refused() {
    let refused = Wrt::of(&vec![grad(vec![wrt(vec![PathExpr::Other])])]);
    assert_eq!(refused, Err(unchecked_wrt()));
    let not_a_list = Wrt::of(&vec![grad(vec![AttrArg { label: "wrt".to_string(), value: AttrValue::Other }])]);
    match not_a_list {
        Err(LoweringError::Malformed { detail }) => {
            assert_eq!(detail, "a `wrt:` entry the checker should have refused")
        }
        other => panic!("expected a refusal, got {:?}", other),
    }
}

#[test]
fn a_registered_function_has_its_selection() {
    let mut registry: AssocList<String, GradParams> = AssocList::new();
    registry.insert("loss".to_string(), GradParams { names: vec!["w".to_string()], wrt: Wrt::Tensors });
    assert_eq!(wrt_of(&registry, &"loss".to_string()), Ok(&Wrt::Tensors));
    match wrt_of(&registry, &"other".to_string()) {
        Err(LoweringError::Malformed { detail }) => {
            assert_eq!(detail, "`@grad` function 'other' was never registered")
        }
        other => panic!("expected a refusal, got {:?}", other),
    }
}

#[test]
fn a_grad_attribute_marks_a_function_for_differentiation() {
    assert!(is_grad(&vec![Attribute { name: "inline".to_string(), named: vec![] }, grad(vec![])]));
    assert!(!is_grad(&vec![Attribute { name: "inline".to_string(), named: vec![] }]));
    assert!(!is_grad(&vec![]));
}
