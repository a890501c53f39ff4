use neuro_compiler::lowering::layout::tensor_element_count;
use neuro_compiler::lowering::tensors::{flatten_tensor_literal, literal_id, plan_construction, Construction, LiteralNode};
use neuro_compiler::lowering::LoweringError;

fn detail<T: std::fmt::Debug>(result: Result<T, LoweringError>) -> String {
    match result {
        Err(LoweringError::Malformed { detail }) => detail,
        other => panic!("expected a malformed error, got {:?}", other),
    }
}

fn leaf(id: u64) -> LiteralNode {
    LiteralNode::Leaf(id)
}

fn row(id: u64, elements: Vec<LiteralNode>) -> LiteralNode {
    LiteralNode::Nested { id, elements }
}

/// `[[1, 2, 3], [4, 5, 6]]`, its leaves known by their values.
fn two_by_three() -> Vec<LiteralNode> {
    vec![row(100, vec![leaf(1), leaf(2), leaf(3)]), row(101, vec![leaf(4), leaf(5), leaf(6)])]
}

#[test]
fn a_literal_flattens_in_row_major_order() {
    let shape = vec![2, 3];
    let flat = flatten_tensor_literal(&two_by_three(), &shape).unwrap();
    assert_eq!(flat, vec![1, 2, 3, 4, 5, 6]);
    assert_eq!(flat.len(), tensor_element_count(&shape));
}

#[test]
fn a_three_level_literal_flattens_depth_first() {
    let literal = vec![
        row(10, vec![row(11, vec![leaf(1), leaf(2)]), row(12, vec![leaf(3), leaf(4)])]),
        row(20, vec![row(21, vec![leaf(5), leaf(6)]), row(22, vec![leaf(7), leaf(8)])]),
    ];
    assert_eq!(flatten_tensor_literal(&literal, &vec![2, 2, 2]).unwrap(), vec![1, 2, 3, 4, 5, 6, 7, 8]);
}

#[test]
fn the_last_level_takes_any_expression_as_an_element() {
    let literal = vec![leaf(7), row(8, vec![])];
    assert_eq!(flatten_tensor_literal(&literal, &vec![2]).unwrap(), vec![7, 8]);
}

#[test]
fn a_literal_refuses_a_scalar_above_the_last_level_and_a_rank_zero_shape() {
    let literal = vec![row(100, vec![leaf(1), leaf(2)]), leaf(3)];
    assert_eq!(detail(flatten_tensor_literal(&literal, &vec![2, 2])), "a tensor literal axis holds nested literals");
    assert_eq!(detail(flatten_tensor_literal(&two_by_three(), &vec![])), "a rank-0 tensor has no array literal form");
}

#[test]
fn each_constructor_builds_its_node() {
    let shape = vec![2, 3];
    assert_eq!(plan_construction("zeros", &vec![], &shape).unwrap(), Construction::Fill { one: false });
    assert_eq!(plan_construction("ones", &vec![], &shape).unwrap(), Construction::Fill { one: true });
    assert_eq!(plan_construction("identity", &vec![], &shape).unwrap(), Construction::Identity);
    assert_eq!(
        plan_construction("random_normal", &vec![leaf(40), leaf(41)], &shape).unwrap(),
        Construction::RandomNormal { mean: 40, std: 41 }
    );
    assert_eq!(plan_construction("scalar", &vec![leaf(9)], &vec![]).unwrap(), Construction::Literal(vec![9]));
    assert_eq!(
        plan_construction("from", &vec![row(99, two_by_three())], &shape).unwrap(),
        Construction::Literal(vec![1, 2, 3, 4, 5, 6])
    );
}

#[test]
fn a_constructor_refuses_the_wrong_arguments() {
    let shape = vec![2, 3];
    assert_eq!(
        detail(plan_construction("random_normal", &vec![leaf(1)], &shape)),
        "`Tensor::random_normal` takes a mean and a standard deviation"
    );
    assert_eq!(detail(plan_construction("scalar", &vec![], &shape)), "`Tensor::scalar` takes one value");
    assert_eq!(detail(plan_construction("from", &vec![leaf(1)], &shape)), "`Tensor::from` takes a nested array literal");
    assert_eq!(detail(plan_construction("eye", &vec![], &shape)), "`Tensor` has no constructor named 'eye'");
}

#[test]
fn every_expression_keeps_its_identifier() {
    assert_eq!(literal_id(&leaf(5)), 5);
    assert_eq!(literal_id(&row(6, vec![leaf(5)])), 6);
}
