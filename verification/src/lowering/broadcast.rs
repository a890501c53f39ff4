//! The result shape of an element-wise tensor operator, and of a matrix product: the
//! join the type checker settled, re-derived from the operands' shapes.

use vstd::prelude::*;

use super::shape::names_view;

verus! {

/// The result axis two aligned operand axes produce: equal extents stay, an extent of
/// one stretches to the other, and a stretched axis contributes neither its extent nor
/// its name. `None` where the axes do not join.
pub open spec fn join_spec(
    left: Option<usize>,
    left_name: Option<Seq<char>>,
    right: Option<usize>,
    right_name: Option<Seq<char>>,
) -> Option<(Option<usize>, Option<Seq<char>>)> {
    if left == right {
        Some(
            (
                left,
                match left_name {
                    Some(n) => Some(n),
                    None => right_name,
                },
            ),
        )
    } else if left == Some(1usize) {
        Some((right, right_name))
    } else if right == Some(1usize) {
        Some((left, left_name))
    } else {
        None
    }
}

/// The view of an optional name.
pub open spec fn name_view(name: Option<String>) -> Option<Seq<char>> {
    match name {
        Some(n) => Some(n@),
        None => None,
    }
}

/// The result axis two aligned operand axes produce.
pub fn join_extents(
    left: Option<usize>,
    left_name: Option<String>,
    right: Option<usize>,
    right_name: Option<String>,
) -> (joined: Option<(Option<usize>, Option<String>)>)
    ensures
        match joined {
            Some((extent, name)) => join_spec(left, name_view(left_name), right, name_view(right_name))
                == Some((extent, name_view(name))),
            None => join_spec(left, name_view(left_name), right, name_view(right_name)) is None,
        },
{
    if left == right {
        let name = match left_name {
            Some(n) => Some(n),
            None => right_name,
        };
        return Some((left, name));
    }
    if left == Some(1usize) {
        Some((right, right_name))
    } else if right == Some(1usize) {
        Some((left, left_name))
    } else {
        None
    }
}

/// The name of axis `i`, or none past the names.
pub open spec fn name_at(names: Seq<Option<Seq<char>>>, i: int) -> Option<Seq<char>> {
    if 0 <= i < names.len() {
        names[i]
    } else {
        None
    }
}

/// The larger of two ranks.
pub open spec fn max_rank(a: nat, b: nat) -> nat {
    if a >= b {
        a
    } else {
        b
    }
}

/// Result axis `p` of broadcasting `left` against `right`, aligned at their trailing
/// axes: the join where both operands have the axis, else the one that has it.
pub open spec fn broadcast_axis(
    left: Seq<Option<usize>>,
    left_names: Seq<Option<Seq<char>>>,
    right: Seq<Option<usize>>,
    right_names: Seq<Option<Seq<char>>>,
    p: int,
) -> Option<(Option<usize>, Option<Seq<char>>)> {
    let rank = max_rank(left.len(), right.len());
    let l = p - (rank - left.len());
    let r = p - (rank - right.len());
    if l >= 0 && r >= 0 {
        join_spec(left[l], name_at(left_names, l), right[r], name_at(right_names, r))
    } else if l >= 0 {
        Some((left[l], name_at(left_names, l)))
    } else {
        Some((right[r], name_at(right_names, r)))
    }
}

/// The extent of a joined axis.
pub open spec fn extent_of(axis: Option<(Option<usize>, Option<Seq<char>>)>) -> Option<usize> {
    match axis {
        Some((extent, _)) => extent,
        None => None,
    }
}

/// The name of a joined axis.
pub open spec fn joined_name(axis: Option<(Option<usize>, Option<Seq<char>>)>) -> Option<Seq<char>> {
    match axis {
        Some((_, name)) => name,
        None => None,
    }
}

/// The shape of a join, empty where there is none.
pub open spec fn shape_of(joined: Option<(Seq<Option<usize>>, Seq<Option<Seq<char>>>)>) -> Seq<Option<usize>> {
    match joined {
        Some((shape, _)) => shape,
        None => Seq::empty(),
    }
}

/// The broadcast join of two shapes: `None` where some aligned pair does not join.
pub open spec fn broadcast_spec(
    left: Seq<Option<usize>>,
    left_names: Seq<Option<Seq<char>>>,
    right: Seq<Option<usize>>,
    right_names: Seq<Option<Seq<char>>>,
) -> Option<(Seq<Option<usize>>, Seq<Option<Seq<char>>>)> {
    let rank = max_rank(left.len(), right.len());
    if forall|p: int| 0 <= p < rank ==> #[trigger] broadcast_axis(left, left_names, right, right_names, p) is Some {
        Some(
            (
                Seq::new(rank, |p: int| extent_of(broadcast_axis(left, left_names, right, right_names, p))),
                Seq::new(rank, |p: int| joined_name(broadcast_axis(left, left_names, right, right_names, p))),
            ),
        )
    } else {
        None
    }
}

/// A copy of the name of axis `i`, or none past the names.
fn name_copy(names: &Vec<Option<String>>, i: usize) -> (name: Option<String>)
    ensures
        name_view(name) == name_at(names_view(names@), i as int),
{
    if i < names.len() {
        match &names[i] {
            Some(n) => Some(n.clone()),
            None => None,
        }
    } else {
        None
    }
}

/// The broadcast join of two shapes: align at the trailing axis, stretch an extent of 1,
/// and let a lower-rank operand supply the innermost axes. `None` where they do not join.
pub fn broadcast_shapes(
    left: &Vec<Option<usize>>,
    left_names: &Vec<Option<String>>,
    right: &Vec<Option<usize>>,
    right_names: &Vec<Option<String>>,
) -> (joined: Option<(Vec<Option<usize>>, Vec<Option<String>>)>)
    ensures
        match joined {
            Some((shape, names)) => broadcast_spec(left@, names_view(left_names@), right@, names_view(right_names@))
                == Some((shape@, names_view(names@))),
            None => broadcast_spec(left@, names_view(left_names@), right@, names_view(right_names@)) is None,
        },
{
    let ghost ln = names_view(left_names@);
    let ghost rn = names_view(right_names@);
    let rank = if left.len() >= right.len() {
        left.len()
    } else {
        right.len()
    };
    let mut shape: Vec<Option<usize>> = Vec::new();
    let mut names: Vec<Option<String>> = Vec::new();
    let mut position: usize = 0;
    while position < rank
        invariant
            ln == names_view(left_names@),
            rn == names_view(right_names@),
            rank == max_rank(left@.len(), right@.len()),
            position <= rank,
            shape@.len() == position,
            names@.len() == position,
            forall|p: int| 0 <= p < position ==> (#[trigger] broadcast_axis(left@, ln, right@, rn, p)) == Some(
                (shape@[p], name_view(names@[p])),
            ),
        decreases rank - position,
    {
        let depth = rank - 1 - position;
        let l = if left.len() >= depth + 1 {
            Some(left.len() - (depth + 1))
        } else {
            None
        };
        let r = if right.len() >= depth + 1 {
            Some(right.len() - (depth + 1))
        } else {
            None
        };
        let (extent, name) = match (l, r) {
            (Some(l), Some(r)) => match join_extents(
                left[l],
                name_copy(left_names, l),
                right[r],
                name_copy(right_names, r),
            ) {
                Some(joined) => joined,
                None => {
                    assert(broadcast_axis(left@, ln, right@, rn, position as int) is None);
                    return None;
                },
            },
            (Some(l), None) => (left[l], name_copy(left_names, l)),
            (None, Some(r)) => (right[r], name_copy(right_names, r)),
            (None, None) => {
                return None;
            },
        };
        let ghost before_names = names@;
        let ghost before_shape = shape@;
        shape.push(extent);
        names.push(name);
        proof {
            assert forall|p: int| 0 <= p < position + 1 implies (#[trigger] broadcast_axis(
                left@,
                ln,
                right@,
                rn,
                p,
            )) == Some((shape@[p], name_view(names@[p]))) by {
                if p < position {
                    assert(shape@[p] == before_shape[p]);
                    assert(names@[p] == before_names[p]);
                }
            }
        }
        position = position + 1;
    }
    proof {
        let result = broadcast_spec(left@, ln, right@, rn);
        assert(shape@ =~= Seq::new(rank as nat, |p: int| extent_of(broadcast_axis(left@, ln, right@, rn, p))));
        assert(names_view(names@) =~= Seq::new(
            rank as nat,
            |p: int| joined_name(broadcast_axis(left@, ln, right@, rn, p)),
        ));
    }
    Some((shape, names))
}

/// The contracted shape of `[M, K] @ [K, N]`: the left operand's rows and the right
/// operand's columns, the inner axis read away. `None` where the pair does not contract.
pub open spec fn matmul_spec(
    left: Seq<Option<usize>>,
    left_names: Seq<Option<Seq<char>>>,
    right: Seq<Option<usize>>,
    right_names: Seq<Option<Seq<char>>>,
) -> Option<(Seq<Option<usize>>, Seq<Option<Seq<char>>>)> {
    if left.len() == 2 && right.len() == 2 && left[1] == right[0] {
        Some((seq![left[0], right[1]], seq![name_at(left_names, 0), name_at(right_names, 1)]))
    } else {
        None
    }
}

/// The contracted shape of a matrix product.
pub fn matmul_shape(
    left: &Vec<Option<usize>>,
    left_names: &Vec<Option<String>>,
    right: &Vec<Option<usize>>,
    right_names: &Vec<Option<String>>,
) -> (contracted: Option<(Vec<Option<usize>>, Vec<Option<String>>)>)
    ensures
        match contracted {
            Some((shape, names)) => matmul_spec(left@, names_view(left_names@), right@, names_view(right_names@))
                == Some((shape@, names_view(names@))),
            None => matmul_spec(left@, names_view(left_names@), right@, names_view(right_names@)) is None,
        },
{
    if left.len() != 2 || right.len() != 2 || left[1] != right[0] {
        return None;
    }
    let shape = vec![left[0], right[1]];
    let names = vec![name_copy(left_names, 0), name_copy(right_names, 1)];
    assert(shape@ =~= seq![left@[0], right@[1]]);
    assert(names_view(names@) =~= seq![
        name_at(names_view(left_names@), 0),
        name_at(names_view(right_names@), 1),
    ]);
    Some((shape, names))
}

/// Broadcasting is commutative in the shape it gives: the operands join in either order
/// or in neither, to the same extents.
pub proof fn lemma_broadcast_commutes(
    left: Seq<Option<usize>>,
    left_names: Seq<Option<Seq<char>>>,
    right: Seq<Option<usize>>,
    right_names: Seq<Option<Seq<char>>>,
)
    ensures
        broadcast_spec(left, left_names, right, right_names) is Some <==> broadcast_spec(
            right,
            right_names,
            left,
            left_names,
        ) is Some,
        broadcast_spec(left, left_names, right, right_names) is Some ==> shape_of(
            broadcast_spec(left, left_names, right, right_names),
        ) == shape_of(broadcast_spec(right, right_names, left, left_names)),
{
    let rank = max_rank(left.len(), right.len());
    assert(rank == max_rank(right.len(), left.len()));
    assert forall|p: int| 0 <= p < rank implies (#[trigger] broadcast_axis(
        left,
        left_names,
        right,
        right_names,
        p,
    ) is Some) == broadcast_axis(right, right_names, left, left_names, p) is Some && (broadcast_axis(
        left,
        left_names,
        right,
        right_names,
        p,
    ) is Some ==> extent_of(broadcast_axis(left, left_names, right, right_names, p)) == extent_of(
        broadcast_axis(right, right_names, left, left_names, p),
    )) by {}
    if broadcast_spec(left, left_names, right, right_names) is Some {
        assert forall|p: int| 0 <= p < rank implies #[trigger] broadcast_axis(right, right_names, left, left_names, p) is Some by {
            assert(broadcast_axis(left, left_names, right, right_names, p) is Some);
        }
        assert(shape_of(broadcast_spec(left, left_names, right, right_names)) =~= shape_of(
            broadcast_spec(right, right_names, left, left_names),
        ));
    }
    if broadcast_spec(right, right_names, left, left_names) is Some {
        assert forall|p: int| 0 <= p < rank implies #[trigger] broadcast_axis(left, left_names, right, right_names, p) is Some by {
            assert(broadcast_axis(right, right_names, left, left_names, p) is Some);
        }
    }
}

/// A shape broadcast against itself is itself.
pub proof fn lemma_broadcast_with_itself(shape: Seq<Option<usize>>, names: Seq<Option<Seq<char>>>)
    ensures
        broadcast_spec(shape, names, shape, names) is Some,
        shape_of(broadcast_spec(shape, names, shape, names)) == shape,
{
    let rank = shape.len();
    assert forall|p: int| 0 <= p < rank implies #[trigger] broadcast_axis(shape, names, shape, names, p) is Some by {}
    assert(shape_of(broadcast_spec(shape, names, shape, names)) =~= shape);
}

} // verus!
