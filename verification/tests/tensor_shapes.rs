use neuro_compiler::lowering::broadcast::{broadcast_shapes, join_extents, matmul_shape};
use neuro_compiler::lowering::layout::{coordinates, literal_offset, slice_sources, tensor_element_count, SliceAxis};
use neuro_compiler::lowering::shape::{
    const_integer, flatten, permute, reorder_names, reshape, resolve_axes, resolve_axis, shape_cast,
    transpose, AxisEntry, ShapeArg,
};
use neuro_compiler::lowering::LoweringError;

fn detail(result: Result<impl std::fmt::Debug, LoweringError>) -> String {
    match result {
        Err(LoweringError::Malformed { detail }) => detail,
        other => panic!("expected a malformed error, got {:?}", other),
    }
}

fn name(text: &str) -> Option<String> {
    Some(text.to_string())
}

fn list(entries: Vec<AxisEntry>) -> Vec<ShapeArg> {
    vec![ShapeArg::AxisList(entries)]
}

fn lit(value: i128) -> AxisEntry {
    AxisEntry::Integer(value)
}

#[test]
fn the_rank_zero_shape_holds_one_element() {
    assert_eq!(tensor_element_count(&vec![]), 1);
    assert_eq!(tensor_element_count(&vec![2, 3, 4]), 24);
    assert_eq!(tensor_element_count(&vec![5, 0, 7]), 0);
}

#[test]
fn a_literal_position_has_its_row_major_offset() {
    assert_eq!(literal_offset(&vec![2, 3, 4], &vec![Some(1), Some(2), Some(3)]), Some(23));
    assert_eq!(literal_offset(&vec![2, 3], &vec![Some(0), Some(0)]), Some(0));
    assert_eq!(literal_offset(&vec![], &vec![]), Some(0));
}

#[test]
fn a_position_outside_its_axis_has_no_offset() {
    assert_eq!(literal_offset(&vec![2, 3], &vec![Some(2), Some(0)]), None);
    assert_eq!(literal_offset(&vec![2, 3], &vec![Some(0), Some(-1)]), None);
    assert_eq!(literal_offset(&vec![2, 3], &vec![None, Some(0)]), None);
    assert_eq!(literal_offset(&vec![2, 3], &vec![Some(0)]), None);
}

#[test]
fn a_huge_tensor_still_has_offsets_for_small_positions() {
    let huge = vec![usize::MAX, usize::MAX];
    assert_eq!(literal_offset(&huge, &vec![Some(0), Some(5)]), Some(5));
    assert_eq!(literal_offset(&huge, &vec![None, Some(5)]), None);
}

#[test]
fn coordinates_vary_the_last_axis_fastest() {
    assert_eq!(coordinates(23, &vec![2, 3, 4]), vec![1, 2, 3]);
    assert_eq!(coordinates(4, &vec![2, 3]), vec![1, 1]);
    assert_eq!(coordinates(0, &vec![]), Vec::<usize>::new());
}

#[test]
fn coordinates_and_offsets_round_trip() {
    let extents = vec![3, 1, 4, 2];
    let count = tensor_element_count(&extents);
    for flat in 0..count {
        let position: Vec<Option<i128>> =
            coordinates(flat, &extents).into_iter().map(|p| Some(p as i128)).collect();
        assert_eq!(literal_offset(&extents, &position), Some(flat));
    }
}

#[test]
fn transpose_swaps_a_matrix() {
    let cast = transpose(&vec![2, 5], &vec![name("rows"), None]).expect("a matrix transposes");
    assert_eq!(cast.shape, vec![5, 2]);
    assert_eq!(cast.names, vec![None, name("rows")]);
    assert_eq!(cast.permutation, Some(vec![1, 0]));
}

#[test]
fn transposing_twice_is_the_identity() {
    let names = vec![name("a"), name("b")];
    let once = transpose(&vec![3, 7], &names).expect("a matrix transposes");
    let twice = transpose(&once.shape, &once.names).expect("a matrix transposes");
    assert_eq!(twice.shape, vec![3, 7]);
    assert_eq!(twice.names, names);
}

#[test]
fn transpose_refuses_a_vector() {
    assert_eq!(detail(transpose(&vec![4], &vec![None])), "`.t()` reached lowering on a rank-1 tensor");
}

#[test]
fn reshape_takes_the_listed_extents() {
    let cast = reshape(&vec![2, 6], &list(vec![lit(3), lit(4)])).expect("same count");
    assert_eq!(cast.shape, vec![3, 4]);
    assert_eq!(cast.names, vec![None, None]);
    assert_eq!(cast.permutation, None);
}

#[test]
fn reshape_infers_a_minus_one() {
    let negative_one = AxisEntry::Negate(Box::new(lit(1)));
    let cast = reshape(&vec![2, 6], &list(vec![lit(4), negative_one])).expect("inferable");
    assert_eq!(cast.shape, vec![4, 3]);
}

#[test]
fn reshape_refuses_a_changed_count() {
    assert_eq!(
        detail(reshape(&vec![2, 6], &list(vec![lit(5), lit(2)]))),
        "`.reshape` reached lowering changing 12 elements into 10"
    );
}

#[test]
fn reshape_refuses_an_uninferable_extent() {
    assert_eq!(
        detail(reshape(&vec![2, 6], &list(vec![lit(5), lit(-1)]))),
        "`.reshape` reached lowering with an extent that cannot be inferred"
    );
    assert_eq!(
        detail(reshape(&vec![2, 6], &list(vec![lit(0), lit(-1)]))),
        "`.reshape` reached lowering with an extent that cannot be inferred"
    );
}

#[test]
fn reshape_refuses_a_negative_or_unknown_extent() {
    assert_eq!(
        detail(reshape(&vec![2, 6], &list(vec![lit(-3), lit(4)]))),
        "`.reshape` reached lowering with a negative extent"
    );
    assert_eq!(
        detail(reshape(&vec![2, 6], &list(vec![AxisEntry::Name("n".to_string())]))),
        "`.reshape` reached lowering with a non-constant extent"
    );
    assert_eq!(
        detail(reshape(&vec![2, 6], &vec![ShapeArg::Other])),
        "`.reshape` reached lowering without its axis-list literal"
    );
}

#[test]
fn permute_reorders_extents_and_names() {
    let names = vec![name("batch"), name("rows"), name("cols")];
    let entries = vec![AxisEntry::Name("cols".to_string()), lit(0), lit(1)];
    let cast = permute(&vec![2, 3, 4], &names, &list(entries)).expect("a full permutation");
    assert_eq!(cast.shape, vec![4, 2, 3]);
    assert_eq!(cast.names, vec![name("cols"), name("batch"), name("rows")]);
    assert_eq!(cast.permutation, Some(vec![2, 0, 1]));
}

#[test]
fn permute_refuses_a_short_list() {
    assert_eq!(
        detail(permute(&vec![2, 3, 4], &vec![None, None, None], &list(vec![lit(1), lit(0)]))),
        "`.permute` reached lowering with 2 axes for a rank-3 tensor"
    );
}

#[test]
fn permute_refuses_an_unknown_dimension_name() {
    assert_eq!(
        detail(permute(&vec![2, 3], &vec![None, None], &list(vec![AxisEntry::Name("k".to_string()), lit(0)]))),
        "`.permute` reached lowering naming dimension 'k', which its receiver's type does not declare"
    );
}

#[test]
fn flatten_without_arguments_merges_everything() {
    let cast = flatten(&vec![2, 3, 4], &vec![None, None, None], &vec![]).expect("always flattens");
    assert_eq!(cast.shape, vec![24]);
    assert_eq!(cast.names, vec![None]);
}

#[test]
fn flatten_merges_adjacent_axes() {
    let names = vec![name("a"), name("b"), name("c"), name("d")];
    let cast = flatten(&vec![2, 3, 4, 5], &names, &list(vec![lit(1), lit(2)])).expect("adjacent");
    assert_eq!(cast.shape, vec![2, 12, 5]);
    assert_eq!(cast.names, vec![name("a"), None, name("d")]);
    assert_eq!(cast.permutation, None);
}

#[test]
fn flatten_refuses_non_adjacent_axes() {
    assert_eq!(
        detail(flatten(&vec![2, 3, 4], &vec![None, None, None], &list(vec![lit(0), lit(2)]))),
        "`.flatten` reached lowering with non-adjacent axes"
    );
    assert_eq!(
        detail(flatten(&vec![2, 3, 4], &vec![None, None, None], &list(vec![]))),
        "`.flatten` reached lowering with no axes"
    );
}

#[test]
fn an_axis_out_of_range_is_refused_with_its_value() {
    assert_eq!(
        detail(resolve_axes(2, &vec![None, None], &vec![AxisEntry::Negate(Box::new(lit(3)))], "permute")),
        "`.permute` reached lowering with axis -3 out of range"
    );
    assert_eq!(
        detail(resolve_axes(2, &vec![None, None], &vec![AxisEntry::Other], "flatten")),
        "`.flatten` reached lowering with a non-constant axis"
    );
}

#[test]
fn a_reduction_axis_may_count_from_the_end() {
    let names = vec![None, name("h"), None];
    assert_eq!(resolve_axis(3, &names, &lit(-1), "sum").expect("in range"), 2);
    assert_eq!(resolve_axis(3, &names, &lit(0), "sum").expect("in range"), 0);
    assert_eq!(resolve_axis(3, &names, &AxisEntry::Name("h".to_string()), "sum").expect("named"), 1);
    assert_eq!(detail(resolve_axis(3, &names, &lit(-4), "max")), "`.max` reached lowering with axis -4 out of range");
    assert_eq!(detail(resolve_axis(3, &names, &lit(3), "max")), "`.max` reached lowering with axis 3 out of range");
}

#[test]
fn constants_see_through_parentheses_and_negation() {
    let entry = AxisEntry::Paren(Box::new(AxisEntry::Negate(Box::new(AxisEntry::Paren(Box::new(lit(7)))))));
    assert_eq!(const_integer(&entry), Some(-7));
    assert_eq!(const_integer(&AxisEntry::Name("x".to_string())), None);
    assert_eq!(const_integer(&AxisEntry::Other), None);
}

#[test]
fn reordering_past_the_names_gives_no_name() {
    assert_eq!(reorder_names(&vec![name("a")], &vec![0, 3]), vec![name("a"), None]);
}

#[test]
fn shape_cast_dispatches_by_method() {
    let cast = shape_cast("t", &vec![2, 3], &vec![None, None], &vec![]).expect("transposes");
    assert_eq!(cast.shape, vec![3, 2]);
    assert_eq!(
        detail(shape_cast("squeeze", &vec![2, 3], &vec![None, None], &vec![])),
        "`.squeeze` is not a shape method"
    );
}

#[test]
fn equal_extents_join_and_keep_the_first_name() {
    assert_eq!(join_extents(Some(3), None, Some(3), name("r")), Some((Some(3), name("r"))));
    assert_eq!(join_extents(Some(3), name("l"), Some(3), name("r")), Some((Some(3), name("l"))));
}

#[test]
fn an_extent_of_one_stretches() {
    assert_eq!(join_extents(Some(1), name("l"), Some(4), name("r")), Some((Some(4), name("r"))));
    assert_eq!(join_extents(Some(4), name("l"), Some(1), name("r")), Some((Some(4), name("l"))));
    assert_eq!(join_extents(Some(2), None, Some(3), None), None);
}

#[test]
fn broadcasting_aligns_trailing_axes() {
    let (shape, names) = broadcast_shapes(
        &vec![Some(2), Some(1), Some(4)],
        &vec![name("b"), None, name("c")],
        &vec![Some(3), Some(1)],
        &vec![name("r"), None],
    )
    .expect("joins");
    assert_eq!(shape, vec![Some(2), Some(3), Some(4)]);
    assert_eq!(names, vec![name("b"), name("r"), name("c")]);
    assert_eq!(broadcast_shapes(&vec![Some(2)], &vec![None], &vec![Some(3)], &vec![None]), None);
}

#[test]
fn broadcasting_commutes_in_shape() {
    let a = vec![Some(5), Some(1), Some(3)];
    let b = vec![Some(4), Some(1)];
    let (left, _) = broadcast_shapes(&a, &vec![None, None, None], &b, &vec![None, None]).expect("joins");
    let (right, _) = broadcast_shapes(&b, &vec![None, None], &a, &vec![None, None, None]).expect("joins");
    assert_eq!(left, right);
    assert_eq!(left, vec![Some(5), Some(4), Some(3)]);
}

#[test]
fn a_matrix_product_contracts_the_inner_axis() {
    let (shape, names) =
        matmul_shape(&vec![Some(2), Some(3)], &vec![name("m"), name("k")], &vec![Some(3), Some(4)], &vec![None, name("n")])
            .expect("contracts");
    assert_eq!(shape, vec![Some(2), Some(4)]);
    assert_eq!(names, vec![name("m"), name("n")]);
    assert_eq!(matmul_shape(&vec![Some(2), Some(3)], &vec![], &vec![Some(4), Some(4)], &vec![]), None);
    assert_eq!(matmul_shape(&vec![Some(2)], &vec![], &vec![Some(2), Some(4)], &vec![]), None);
}

#[test]
fn a_slice_reads_its_elements_in_row_major_order() {
    // Rows 1 and 2 of a 3x4 matrix, at column 2.
    let axes = vec![SliceAxis::Range { start: 1, end: 3, reversed: false }, SliceAxis::Position(Some(2))];
    assert_eq!(slice_sources(&vec![3, 4], &axes), Some(vec![6, 10]));
    let axes = vec![SliceAxis::Position(Some(0)), SliceAxis::Range { start: 0, end: 4, reversed: true }];
    assert_eq!(slice_sources(&vec![3, 4], &axes), Some(vec![3, 2, 1, 0]));
}

#[test]
fn a_slice_of_two_ranges_visits_their_product() {
    let axes = vec![
        SliceAxis::Range { start: 0, end: 2, reversed: false },
        SliceAxis::Range { start: 1, end: 3, reversed: false },
    ];
    assert_eq!(slice_sources(&vec![2, 3], &axes), Some(vec![1, 2, 4, 5]));
}

#[test]
fn a_slice_not_known_at_compile_time_has_no_sources() {
    assert_eq!(slice_sources(&vec![3], &vec![SliceAxis::Position(None)]), None);
    assert_eq!(slice_sources(&vec![3], &vec![SliceAxis::Position(Some(3))]), None);
    assert_eq!(slice_sources(&vec![3], &vec![SliceAxis::Range { start: 2, end: 4, reversed: false }]), None);
    assert_eq!(slice_sources(&vec![3], &vec![SliceAxis::Range { start: 2, end: 1, reversed: false }]), None);
    assert_eq!(slice_sources(&vec![3, 3], &vec![SliceAxis::Position(Some(0))]), None);
    assert_eq!(slice_sources(&vec![], &vec![]), Some(vec![0]));
}

use neuro_compiler::lowering::index::{const_int, fold, index_plan, FoldExpr, FoldOp, IndexArg, TensorAxis};

fn num(value: i128) -> FoldExpr {
    FoldExpr::Integer(value)
}

fn binary(left: FoldExpr, op: FoldOp, right: FoldExpr) -> FoldExpr {
    FoldExpr::Binary { left: Box::new(left), op, right: Box::new(right) }
}

#[test]
fn slice_bounds_fold_with_rust_arithmetic() {
    assert_eq!(fold(&binary(num(2), FoldOp::Add, binary(num(3), FoldOp::Multiply, num(4)))), Some(14));
    assert_eq!(fold(&binary(num(-7), FoldOp::Divide, num(2))), Some(-3));
    assert_eq!(fold(&binary(num(-7), FoldOp::Modulo, num(2))), Some(-1));
    assert_eq!(fold(&binary(num(7), FoldOp::Modulo, num(-2))), Some(1));
    assert_eq!(fold(&FoldExpr::Paren(Box::new(binary(num(9), FoldOp::Subtract, num(10))))), Some(-1));
    assert_eq!(fold(&binary(num(1), FoldOp::Divide, num(0))), None);
    assert_eq!(fold(&binary(num(1), FoldOp::Other, num(2))), None);
    assert_eq!(fold(&FoldExpr::Other), None);
}

#[test]
fn a_slice_bound_must_be_a_constant_position() {
    assert_eq!(const_int(&num(3)), Ok(3));
    let refused = LoweringError::Malformed { detail: "a tensor slice bound is not a constant".to_string() };
    assert_eq!(const_int(&num(-1)), Err(refused.clone()));
    assert_eq!(const_int(&FoldExpr::Other), Err(refused));
}

#[test]
fn ranges_keep_their_axes_and_names() {
    let args = vec![
        IndexArg::Position,
        IndexArg::Range { start: num(1), end: num(3), inclusive: false },
        IndexArg::FullAxis,
        IndexArg::Range { start: num(0), end: num(1), inclusive: true },
    ];
    let names = vec![name("n"), name("h"), None, name("c")];
    let plan = index_plan(&vec![2, 5, 4, 3], &names, &args).expect("a valid index");
    assert_eq!(
        plan.axes,
        vec![
            TensorAxis::Position,
            TensorAxis::Range { start: 1, end: 3 },
            TensorAxis::Range { start: 0, end: 4 },
            TensorAxis::Range { start: 0, end: 2 },
        ]
    );
    assert_eq!(plan.kept, vec![2, 4, 2]);
    assert_eq!(plan.kept_names, vec![name("h"), None, name("c")]);
}

#[test]
fn an_index_of_positions_keeps_no_axis() {
    let plan = index_plan(&vec![2, 3], &vec![None, None], &vec![IndexArg::Position, IndexArg::Position])
        .expect("a valid index");
    assert!(plan.kept.is_empty());
    assert!(plan.kept_names.is_empty());
}

#[test]
fn an_index_must_name_every_axis() {
    assert_eq!(
        detail(index_plan(&vec![2, 3], &vec![None, None], &vec![IndexArg::Position]).map(|p| p.kept)),
        "tensor index names 1 axes for a rank-2 tensor"
    );
}

#[test]
fn reshape_refuses_two_inferred_extents() {
    assert_eq!(
        detail(reshape(&vec![2, 3], &list(vec![lit(-1), lit(-1)]))),
        "`.reshape` reached lowering with more than one inferred extent"
    );
}

#[test]
fn permute_refuses_a_repeated_axis() {
    assert_eq!(
        detail(permute(&vec![2, 3], &vec![None, None], &list(vec![lit(0), lit(0)]))),
        "`.permute` reached lowering with an axis list that is not a permutation"
    );
}
