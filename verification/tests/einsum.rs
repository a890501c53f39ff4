use neuro_compiler::lowering::einsum::{check_operand_count, split_subscripts};
use neuro_compiler::lowering::LoweringError;

#[test]
fn splits_a_batch_matmul_subscript() {
    let (inputs, output) = match split_subscripts("bij,bjk->bik") {
        Ok(split) => split,
        Err(error) => panic!("{}", error.message()),
    };
    assert_eq!(inputs, vec![vec!['b', 'i', 'j'], vec!['b', 'j', 'k']]);
    assert_eq!(output, vec!['b', 'i', 'k']);
}

#[test]
fn an_empty_output_side_yields_no_letters() {
    let (inputs, output) = match split_subscripts("ii->") {
        Ok(split) => split,
        Err(error) => panic!("{}", error.message()),
    };
    assert_eq!(inputs, vec![vec!['i', 'i']]);
    assert!(output.is_empty());
}

#[test]
fn a_subscript_without_an_arrow_is_malformed() {
    match split_subscripts("ij,jk") {
        Err(LoweringError::Malformed { detail }) => {
            assert_eq!(detail, "`einsum(\"ij,jk\", ...)` reached lowering without a `->`")
        }
        other => panic!("expected a malformed error, got {:?}", other),
    }
}

#[test]
fn only_the_first_arrow_separates_the_sides() {
    let (inputs, output) = split_subscripts("a->b->c").expect("has an arrow");
    assert_eq!(inputs, vec![vec!['a']]);
    assert_eq!(output, vec!['b', '-', '>', 'c']);
}

#[test]
fn empty_operand_subscripts_are_kept() {
    let (inputs, output) = split_subscripts(",i,->i").expect("has an arrow");
    assert_eq!(inputs, vec![vec![], vec!['i'], vec![]]);
    assert_eq!(output, vec!['i']);
}

#[test]
fn an_empty_left_side_is_one_empty_operand() {
    let (inputs, output) = split_subscripts("->").expect("has an arrow");
    assert_eq!(inputs, vec![Vec::<char>::new()]);
    assert!(output.is_empty());
}

#[test]
fn a_lowering_error_displays_its_detail() {
    let error = LoweringError::Malformed { detail: "x".to_string() };
    assert_eq!(error.message(), "malformed expression reached lowering: x");
    let error = LoweringError::UnresolvedBinding { name: "y".to_string() };
    assert_eq!(error.message(), "unresolved binding 'y' during lowering");
    let error = LoweringError::UnresolvedType { name: "T".to_string() };
    assert_eq!(error.message(), "cannot resolve type annotation 'T' during lowering");
    let error = LoweringError::UnresolvedCall { target: "f".to_string() };
    assert_eq!(error.message(), "unresolved call target 'f' during lowering");
}

use neuro_compiler::lowering::einsum::bind_subscripts;
use neuro_compiler::lowering::methods::{
    is_apply_method, is_reduce_method, is_shape_method, is_sort_method, is_tensor_constructor,
};

fn malformed_detail<T: std::fmt::Debug>(result: Result<T, LoweringError>) -> String {
    match result {
        Err(LoweringError::Malformed { detail }) => detail,
        other => panic!("expected a malformed error, got {:?}", other.map(|_| ())),
    }
}

#[test]
fn letters_are_numbered_in_order_of_first_appearance() {
    let (inputs, output) = split_subscripts("bij,bjk->bik").expect("has an arrow");
    let tables = bind_subscripts(&inputs, &vec![vec![8, 2, 3], vec![8, 3, 5]], &output).expect("consistent");
    assert_eq!(tables.inputs, vec![vec![0, 1, 2], vec![0, 2, 3]]);
    assert_eq!(tables.output, vec![0, 1, 3]);
    assert_eq!(tables.extents, vec![8, 2, 3, 5]);
}

#[test]
fn a_full_contraction_has_no_result_axes() {
    let (inputs, output) = split_subscripts("ii->").expect("has an arrow");
    let tables = bind_subscripts(&inputs, &vec![vec![4, 4]], &output).expect("consistent");
    assert_eq!(tables.inputs, vec![vec![0, 0]]);
    assert!(tables.output.is_empty());
    assert_eq!(tables.extents, vec![4]);
}

#[test]
fn a_subscript_must_match_its_operands_rank() {
    let (inputs, output) = split_subscripts("ij,jk->ik").expect("has an arrow");
    assert_eq!(
        malformed_detail(bind_subscripts(&inputs, &vec![vec![2, 3], vec![3]], &output)),
        "`einsum` reached lowering with subscript 'jk' on a rank-1 operand"
    );
}

#[test]
fn a_letter_binds_one_extent() {
    let (inputs, output) = split_subscripts("ij,jk->ik").expect("has an arrow");
    assert_eq!(
        malformed_detail(bind_subscripts(&inputs, &vec![vec![2, 3], vec![4, 5]], &output)),
        "`einsum` reached lowering binding 'j' to both 3 and 4"
    );
}

#[test]
fn the_result_may_only_name_bound_letters() {
    let (inputs, output) = split_subscripts("ij->iz").expect("has an arrow");
    assert_eq!(
        malformed_detail(bind_subscripts(&inputs, &vec![vec![2, 3]], &output)),
        "`einsum` reached lowering with the unbound output letter 'z'"
    );
}

#[test]
fn a_contraction_needs_an_operand() {
    assert_eq!(
        malformed_detail(bind_subscripts(&vec![], &vec![], &vec!['i'])),
        "`einsum` reached lowering with no operands"
    );
}

#[test]
fn the_tensor_intrinsics_answer_to_their_names() {
    assert!(is_apply_method("map") && is_apply_method("zip") && is_apply_method("reduce"));
    assert!(!is_apply_method("sum"));
    assert!(is_reduce_method("sum") && is_reduce_method("mean") && is_reduce_method("max") && is_reduce_method("min"));
    assert!(!is_reduce_method("sort"));
    assert!(is_shape_method("t") && is_shape_method("reshape") && is_shape_method("permute") && is_shape_method("flatten"));
    assert!(!is_shape_method("transpose"));
    assert!(is_sort_method("sort") && is_sort_method("argsort") && is_sort_method("topk"));
    assert!(!is_sort_method("top"));
    for ctor in ["zeros", "ones", "identity", "random_normal", "scalar", "from"] {
        assert!(is_tensor_constructor(ctor));
    }
    assert!(!is_tensor_constructor("empty"));
}

#[test]
fn a_contraction_takes_one_operand_per_subscript() {
    let (inputs, _) = split_subscripts("bij,bjk->bik").unwrap();
    assert!(check_operand_count("bij,bjk->bik", &inputs, 2).is_ok());
    match check_operand_count("bij,bjk->bik", &inputs, 3) {
        Err(LoweringError::Malformed { detail }) => {
            assert_eq!(detail, "`einsum(\"bij,bjk->bik\", ...)` reached lowering with 3 operands for 2 subscripts")
        },
        other => panic!("expected a malformed error, got {:?}", other),
    }
}
