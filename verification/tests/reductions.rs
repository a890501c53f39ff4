use neuro_compiler::lowering::adjoint::{restored_extents, unbroadcast, ReduceStep};
use neuro_compiler::lowering::methods::{apply_kind, math_exponent, math_op, ApplyKind, MathOp};
use neuro_compiler::lowering::reduction::{plan_reduction, reduce_op, ReduceOp};
use neuro_compiler::lowering::selection::{const_boolean, plan_selection, SortKind};
use neuro_compiler::lowering::shape::AxisEntry;
use neuro_compiler::lowering::LoweringError;

fn detail<T: std::fmt::Debug>(result: Result<T, LoweringError>) -> String {
    match result {
        Err(LoweringError::Malformed { detail }) => detail,
        other => panic!("expected a malformed error, got {:?}", other),
    }
}

fn name(text: &str) -> Option<String> {
    Some(text.to_string())
}

fn batch_features() -> (Vec<usize>, Vec<Option<String>>) {
    (vec![4, 3, 5], vec![name("batch"), None, name("features")])
}

#[test]
fn each_reduction_method_names_its_fold() {
    assert_eq!(reduce_op("sum").unwrap(), ReduceOp::Sum);
    assert_eq!(reduce_op("mean").unwrap(), ReduceOp::Mean);
    assert_eq!(reduce_op("max").unwrap(), ReduceOp::Max);
    assert_eq!(reduce_op("min").unwrap(), ReduceOp::Min);
    assert_eq!(detail(reduce_op("prod")), "`.prod` is not a reduction");
}

#[test]
fn a_reduction_without_an_axis_folds_everything() {
    let (shape, names) = batch_features();
    let r = plan_reduction(&shape, &names, "mean", None).unwrap();
    assert_eq!(r.op, ReduceOp::Mean);
    assert_eq!(r.axis, None);
    assert!(r.shape.is_empty());
    assert!(r.names.is_empty());
}

#[test]
fn a_reduction_removes_the_axis_it_folds() {
    let (shape, names) = batch_features();
    let r = plan_reduction(&shape, &names, "sum", Some(&AxisEntry::Integer(1))).unwrap();
    assert_eq!(r.axis, Some(1));
    assert_eq!(r.shape, vec![4, 5]);
    assert_eq!(r.names, vec![name("batch"), name("features")]);
}

#[test]
fn a_reduction_axis_may_be_a_dimension_name_or_count_from_the_end() {
    let (shape, names) = batch_features();
    let by_name = plan_reduction(&shape, &names, "max", Some(&AxisEntry::Name("features".to_string()))).unwrap();
    assert_eq!(by_name.axis, Some(2));
    assert_eq!(by_name.shape, vec![4, 3]);
    let from_end = plan_reduction(
        &shape,
        &names,
        "min",
        Some(&AxisEntry::Negate(Box::new(AxisEntry::Integer(3)))),
    )
    .unwrap();
    assert_eq!(from_end.axis, Some(0));
    assert_eq!(from_end.shape, vec![3, 5]);
    assert_eq!(from_end.names, vec![None, name("features")]);
}

#[test]
fn a_reduction_refuses_what_does_not_resolve() {
    let (shape, names) = batch_features();
    assert_eq!(
        detail(plan_reduction(&shape, &names, "sum", Some(&AxisEntry::Integer(3)))),
        "`.sum` reached lowering with axis 3 out of range"
    );
    assert_eq!(
        detail(plan_reduction(&shape, &names, "sum", Some(&AxisEntry::Name("time".to_string())))),
        "`.sum` reached lowering naming dimension 'time', which its receiver's type does not declare"
    );
    assert_eq!(
        detail(plan_reduction(&shape, &names, "mean", Some(&AxisEntry::Other))),
        "`.mean` reached lowering with a non-constant axis"
    );
    assert_eq!(
        detail(plan_reduction(&shape, &names, "norm", Some(&AxisEntry::Other))),
        "`.norm` is not a reduction"
    );
}

#[test]
fn a_sort_orders_the_last_axis_ascending_by_default() {
    let (shape, names) = batch_features();
    let s = plan_selection(&shape, &names, "sort", &vec![]).unwrap();
    assert_eq!(s.kind, SortKind::Values);
    assert_eq!(s.axis, 2);
    assert!(!s.descending);
    assert_eq!(s.shape, shape);
    assert_eq!(s.names, names);
}

#[test]
fn an_argsort_gives_indices_in_the_direction_asked() {
    let (shape, names) = batch_features();
    let args = vec![AxisEntry::Name("batch".to_string()), AxisEntry::Paren(Box::new(AxisEntry::Boolean(true)))];
    let s = plan_selection(&shape, &names, "argsort", &args).unwrap();
    assert_eq!(s.kind, SortKind::Indices);
    assert_eq!(s.axis, 0);
    assert!(s.descending);
    assert_eq!(s.shape, vec![4, 3, 5]);
}

#[test]
fn topk_keeps_k_entries_of_its_axis_and_drops_its_name() {
    let (shape, names) = batch_features();
    let s = plan_selection(&shape, &names, "topk", &vec![AxisEntry::Integer(2), AxisEntry::Integer(0)]).unwrap();
    assert_eq!(s.kind, SortKind::TopK(2));
    assert_eq!(s.axis, 0);
    assert!(s.descending);
    assert_eq!(s.shape, vec![2, 3, 5]);
    assert_eq!(s.names, vec![None, None, name("features")]);
    let last = plan_selection(&shape, &names, "topk", &vec![AxisEntry::Integer(1)]).unwrap();
    assert_eq!(last.axis, 2);
    assert_eq!(last.shape, vec![4, 3, 1]);
    assert_eq!(last.names, vec![name("batch"), None, None]);
}

#[test]
fn a_selection_refuses_what_does_not_resolve() {
    let (shape, names) = batch_features();
    assert_eq!(
        detail(plan_selection(&vec![], &vec![], "sort", &vec![])),
        "`.sort` reached lowering on a rank-0 tensor"
    );
    assert_eq!(
        detail(plan_selection(&shape, &names, "topk", &vec![AxisEntry::Integer(-1)])),
        "`.topk` reached lowering with a non-constant `k:`"
    );
    assert_eq!(
        detail(plan_selection(&shape, &names, "topk", &vec![])),
        "`.topk` reached lowering with a non-constant `k:`"
    );
    assert_eq!(
        detail(plan_selection(&shape, &names, "sort", &vec![AxisEntry::Integer(0), AxisEntry::Other])),
        "`.sort` reached lowering with a non-constant `descending:`"
    );
    assert_eq!(
        detail(plan_selection(&shape, &names, "argsort", &vec![AxisEntry::Integer(-4)])),
        "`.argsort` reached lowering with axis -4 out of range"
    );
}

#[test]
fn booleans_see_through_parentheses() {
    assert_eq!(const_boolean(&AxisEntry::Paren(Box::new(AxisEntry::Boolean(false)))), Some(false));
    assert_eq!(const_boolean(&AxisEntry::Integer(1)), None);
}

#[test]
fn each_traversal_method_names_its_kind() {
    assert_eq!(apply_kind("map").unwrap(), ApplyKind::Each);
    assert_eq!(apply_kind("zip").unwrap(), ApplyKind::Pairwise);
    assert_eq!(apply_kind("reduce").unwrap(), ApplyKind::Fold);
    assert_eq!(detail(apply_kind("fold")), "`.fold` is not a functional traversal");
}

#[test]
fn math_methods_name_their_function() {
    assert_eq!(math_op("exp"), Some(MathOp::Exp));
    assert_eq!(math_op("log"), Some(MathOp::Log));
    assert_eq!(math_op("sqrt"), Some(MathOp::Sqrt));
    assert_eq!(math_op("tanh"), Some(MathOp::Tanh));
    assert_eq!(math_op("abs"), Some(MathOp::Abs));
    assert_eq!(math_op("pow"), Some(MathOp::Pow));
    assert_eq!(math_op("sin"), None);
}

#[test]
fn only_pow_takes_an_exponent() {
    assert_eq!(math_exponent(MathOp::Pow, 1).unwrap(), true);
    assert_eq!(math_exponent(MathOp::Exp, 0).unwrap(), false);
    assert_eq!(math_exponent(MathOp::Abs, 3).unwrap(), false);
    assert_eq!(detail(math_exponent(MathOp::Pow, 0)), "`.pow` reached lowering without exactly one exponent");
    assert_eq!(detail(math_exponent(MathOp::Pow, 2)), "`.pow` reached lowering without exactly one exponent");
}

#[test]
fn a_contribution_that_is_not_a_tensor_is_kept() {
    assert_eq!(unbroadcast(&None, &Some(vec![2])), vec![]);
}

#[test]
fn a_scalar_operand_takes_the_total() {
    assert_eq!(unbroadcast(&Some(vec![2, 3]), &None), vec![ReduceStep::SumAll]);
}

#[test]
fn an_operand_of_the_result_shape_takes_the_contribution_as_it_is() {
    assert_eq!(unbroadcast(&Some(vec![2, 3]), &Some(vec![2, 3])), vec![]);
}

#[test]
fn a_rank_zero_operand_takes_the_total_wrapped() {
    assert_eq!(unbroadcast(&Some(vec![2, 3]), &Some(vec![])), vec![ReduceStep::SumAll, ReduceStep::Wrap]);
}

#[test]
fn extra_leading_axes_and_stretched_axes_are_summed_away() {
    assert_eq!(
        unbroadcast(&Some(vec![2, 3, 4]), &Some(vec![3, 1])),
        vec![ReduceStep::SumAxis(0), ReduceStep::SumAxis(1), ReduceStep::Reshape]
    );
    assert_eq!(
        unbroadcast(&Some(vec![5, 6, 7]), &Some(vec![1, 6, 1])),
        vec![ReduceStep::SumAxis(2), ReduceStep::SumAxis(0), ReduceStep::Reshape]
    );
    assert_eq!(unbroadcast(&Some(vec![2, 3]), &Some(vec![3])), vec![ReduceStep::SumAxis(0)]);
}

#[test]
fn a_reduced_axis_comes_back_at_extent_one() {
    assert_eq!(restored_extents(&vec![2, 3, 4], 1), vec![2, 1, 4]);
    assert_eq!(restored_extents(&vec![7], 0), vec![1]);
}
