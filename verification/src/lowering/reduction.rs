//! The tensor reductions `.sum()`, `.mean()`, `.max()`, and `.min()`: which reduction a
//! method names, the axis it folds, and the shape and dimension names left after it.

use vstd::prelude::*;
use vstd::string::*;

use super::methods::{same_text, MAX_METHOD, MEAN_METHOD, MIN_METHOD, SUM_METHOD};
use super::shape::{
    copy_name, lemma_name_position_bound, method_detail, method_text, names_view, negation_fits, resolve_axis,
    resolve_axis_spec, AxisEntry,
};
use super::{malformed, LoweringError, LoweringErrorView};

verus! {

/// The fold a reduction applies along its axis.
#[derive(Debug, Clone, Copy, PartialEq, Eq, Structural)]
pub enum ReduceOp {
    Sum,
    Mean,
    Max,
    Min,
}

/// The reduction `method` names, or the detail of its refusal.
pub open spec fn reduce_op_spec(method: Seq<char>) -> Result<ReduceOp, Seq<char>> {
    if method == SUM_METHOD@ {
        Ok(ReduceOp::Sum)
    } else if method == MEAN_METHOD@ {
        Ok(ReduceOp::Mean)
    } else if method == MAX_METHOD@ {
        Ok(ReduceOp::Max)
    } else if method == MIN_METHOD@ {
        Ok(ReduceOp::Min)
    } else {
        Err(method_detail(method, " is not a reduction"@))
    }
}

/// The reduction `method` names.
pub fn reduce_op(method: &str) -> (r: Result<ReduceOp, LoweringError>)
    ensures
        match r {
            Ok(op) => reduce_op_spec(method@) == Ok::<ReduceOp, Seq<char>>(op),
            Err(e) => reduce_op_spec(method@) matches Err(d) && e@ == (LoweringErrorView::Malformed {
                detail: d,
            }),
        },
{
    if same_text(method, SUM_METHOD) {
        Ok(ReduceOp::Sum)
    } else if same_text(method, MEAN_METHOD) {
        Ok(ReduceOp::Mean)
    } else if same_text(method, MAX_METHOD) {
        Ok(ReduceOp::Max)
    } else if same_text(method, MIN_METHOD) {
        Ok(ReduceOp::Min)
    } else {
        Err(malformed(method_text(method, " is not a reduction")))
    }
}

/// What a reduction of a tensor gives: the fold, the axis it runs along, and the shape
/// and names of the result. Without an axis the whole tensor folds to one element, and
/// the shape and names are empty.
#[derive(Debug, PartialEq)]
pub struct Reduction {
    pub op: ReduceOp,
    pub axis: Option<usize>,
    pub shape: Vec<usize>,
    pub names: Vec<Option<String>>,
}

/// A [`Reduction`] as sequences.
pub struct ReductionView {
    pub op: ReduceOp,
    pub axis: Option<usize>,
    pub shape: Seq<usize>,
    pub names: Seq<Option<Seq<char>>>,
}

impl View for Reduction {
    type V = ReductionView;

    open spec fn view(&self) -> ReductionView {
        ReductionView {
            op: self.op,
            axis: self.axis,
            shape: self.shape@,
            names: names_view(self.names@),
        }
    }
}

/// `.method(axis)` on a tensor of `shape` named `names`: the reduction named first, then
/// the axis; the folded axis leaves the shape and the names.
pub open spec fn reduction_spec(
    shape: Seq<usize>,
    names: Seq<Option<Seq<char>>>,
    method: Seq<char>,
    axis: Option<AxisEntry>,
) -> Result<ReductionView, Seq<char>> {
    match reduce_op_spec(method) {
        Err(d) => Err(d),
        Ok(op) => match axis {
            None => Ok(ReductionView { op, axis: None, shape: Seq::empty(), names: Seq::empty() }),
            Some(entry) => match resolve_axis_spec(shape.len(), names, entry, method) {
                Err(d) => Err(d),
                Ok(a) => Ok(
                    ReductionView {
                        op,
                        axis: Some(a),
                        shape: shape.remove(a as int),
                        names: names.remove(a as int),
                    },
                ),
            },
        },
    }
}

/// The extents of `shape` without the one at `axis`.
pub(crate) fn extents_without(shape: &Vec<usize>, axis: usize) -> (result: Vec<usize>)
    requires
        axis < shape@.len(),
    ensures
        result@ == shape@.remove(axis as int),
{
    let mut result: Vec<usize> = Vec::new();
    let mut i: usize = 0;
    while i < shape.len()
        invariant
            axis < shape@.len(),
            i <= shape@.len(),
            result@ =~= (if i <= axis {
                shape@.take(i as int)
            } else {
                shape@.take(i as int).remove(axis as int)
            }),
        decreases shape@.len() - i,
    {
        if i != axis {
            result.push(shape[i]);
        }
        proof {
            assert(shape@.take(i + 1) =~= shape@.take(i as int).push(shape@[i as int]));
        }
        i = i + 1;
    }
    assert(shape@.take(i as int) =~= shape@);
    result
}

/// The names of `names` without the one at `axis`.
pub(crate) fn names_without(names: &Vec<Option<String>>, axis: usize) -> (result: Vec<
    Option<String>,
>)
    requires
        axis < names@.len(),
    ensures
        names_view(result@) == names_view(names@).remove(axis as int),
{
    let ghost view = names_view(names@);
    let mut result: Vec<Option<String>> = Vec::new();
    let mut i: usize = 0;
    while i < names.len()
        invariant
            view == names_view(names@),
            axis < names@.len(),
            i <= names@.len(),
            names_view(result@) =~= (if i <= axis {
                view.take(i as int)
            } else {
                view.take(i as int).remove(axis as int)
            }),
        decreases names@.len() - i,
    {
        let ghost before = result@;
        if i != axis {
            result.push(copy_name(&names[i]));
            assert(names_view(result@) =~= names_view(before).push(view[i as int]));
        }
        proof {
            assert(view.take(i + 1) =~= view.take(i as int).push(view[i as int]));
        }
        i = i + 1;
    }
    assert(view.take(i as int) =~= view);
    result
}

/// Whether `r` is the outcome `spec` describes, an error as its detail.
pub open spec fn reduction_outcome(
    r: Result<Reduction, LoweringError>,
    spec: Result<ReductionView, Seq<char>>,
) -> bool {
    match r {
        Ok(v) => spec == Ok::<ReductionView, Seq<char>>(v@),
        Err(e) => spec matches Err(d) && e@ == (LoweringErrorView::Malformed { detail: d }),
    }
}

/// `.method(axis)` on a tensor of `shape` named `names`, one name slot per axis.
pub fn plan_reduction(
    shape: &Vec<usize>,
    names: &Vec<Option<String>>,
    method: &str,
    axis: Option<&AxisEntry>,
) -> (r: Result<Reduction, LoweringError>)
    requires
        names@.len() == shape@.len(),
        match axis {
            Some(entry) => negation_fits(*entry),
            None => true,
        },
    ensures
        reduction_outcome(
            r,
            reduction_spec(
                shape@,
                names_view(names@),
                method@,
                match axis {
                    Some(entry) => Some(*entry),
                    None => None,
                },
            ),
        ),
{
    let op = match reduce_op(method) {
        Ok(op) => op,
        Err(e) => {
            return Err(e);
        },
    };
    let entry = match axis {
        Some(entry) => entry,
        None => {
            let result = Reduction { op, axis: None, shape: Vec::new(), names: Vec::new() };
            assert(result@.shape =~= Seq::<usize>::empty());
            assert(result@.names =~= Seq::<Option<Seq<char>>>::empty());
            return Ok(result);
        },
    };
    let a = match resolve_axis(shape.len(), names, entry, method) {
        Ok(a) => a,
        Err(e) => {
            return Err(e);
        },
    };
    proof {
        if entry is Name {
            lemma_name_position_bound(names_view(names@), entry->Name_0@);
        }
    }
    let result = Reduction {
        op,
        axis: Some(a),
        shape: extents_without(shape, a),
        names: names_without(names, a),
    };
    Ok(result)
}

} // verus!
