//! The shape side of the reverse pass's broadcast rule: how a gradient contribution,
//! which has the shape of an element-wise operator's result, is summed back down to
//! the shape of the operand it belongs to.

use vstd::prelude::*;

use super::broadcast::{broadcast_axis, broadcast_spec, extent_of, shape_of};
use super::layout::{lemma_product_concat, lemma_product_single, product};

verus! {

/// One step of bringing a contribution to its operand's shape.
#[derive(Debug, Clone, Copy, PartialEq, Eq, Structural)]
pub enum ReduceStep {
    /// Sum every element into one scalar.
    SumAll,
    /// Sum along one axis, which leaves the shape.
    SumAxis(usize),
    /// Re-describe the buffer at the operand's shape.
    Reshape,
    /// Hold the scalar as the operand's rank-0 tensor.
    Wrap,
}

/// Whether operand axis `i`, of extent one, was stretched to a longer result axis.
pub open spec fn is_stretched(trimmed: Seq<usize>, wanted: Seq<usize>, i: int) -> bool {
    wanted[i] == 1 && trimmed[i] != 1
}

/// The stretched axes at or past `n`, highest first.
pub open spec fn stretched_from(trimmed: Seq<usize>, wanted: Seq<usize>, n: int) -> Seq<usize>
    decreases wanted.len() - n,
{
    if n < 0 || n >= wanted.len() {
        Seq::empty()
    } else {
        stretched_from(trimmed, wanted, n + 1) + if is_stretched(trimmed, wanted, n) {
            seq![n as usize]
        } else {
            Seq::empty()
        }
    }
}

/// One axis sum per axis.
pub open spec fn axis_sums(axes: Seq<usize>) -> Seq<ReduceStep> {
    axes.map_values(|a: usize| ReduceStep::SumAxis(a))
}

/// The steps that bring a contribution of shape `current` (`None` when it is not a
/// tensor of static shape) to an operand of shape `wanted` (`None` when the operand is
/// a scalar): a scalar operand takes the total; a rank-0 operand the total, wrapped;
/// otherwise the result's extra leading axes are summed away, then every axis the
/// operand stretched from one, highest first, and the buffer re-described at the
/// operand's shape when any such axis was summed.
pub open spec fn unbroadcast_spec(current: Option<Seq<usize>>, wanted: Option<Seq<usize>>) -> Seq<ReduceStep> {
    match current {
        None => Seq::empty(),
        Some(c) => match wanted {
            None => seq![ReduceStep::SumAll],
            Some(w) => if c == w {
                Seq::empty()
            } else if w.len() == 0 {
                seq![ReduceStep::SumAll, ReduceStep::Wrap]
            } else {
                let d = c.len() - w.len();
                let lead = Seq::new(d as nat, |i: int| ReduceStep::SumAxis(0));
                let axes = axis_sums(stretched_from(c.skip(d), w, 0));
                if axes.len() == 0 {
                    lead
                } else {
                    lead + axes + seq![ReduceStep::Reshape]
                }
            },
        },
    }
}

/// Whether the steps are defined: a result never has fewer axes than an operand it
/// differs from, unless that operand is rank-0.
pub open spec fn unbroadcast_defined(current: Option<Seq<usize>>, wanted: Option<Seq<usize>>) -> bool {
    match (current, wanted) {
        (Some(c), Some(w)) => c == w || w.len() == 0 || w.len() <= c.len(),
        _ => true,
    }
}

/// The view of an optional shape.
pub open spec fn shape_view(shape: Option<Vec<usize>>) -> Option<Seq<usize>> {
    match shape {
        Some(s) => Some(s@),
        None => None,
    }
}

/// Whether two shapes are the same.
fn same_extents(a: &Vec<usize>, b: &Vec<usize>) -> (same: bool)
    ensures
        same == (a@ == b@),
{
    if a.len() != b.len() {
        return false;
    }
    let mut i: usize = 0;
    while i < a.len()
        invariant
            a@.len() == b@.len(),
            i <= a@.len(),
            forall|k: int| 0 <= k < i ==> a@[k] == b@[k],
        decreases a@.len() - i,
    {
        if a[i] != b[i] {
            return false;
        }
        i = i + 1;
    }
    assert(a@ =~= b@);
    true
}

/// The steps that bring a contribution of shape `current` to an operand of shape
/// `wanted`.
pub fn unbroadcast(current: &Option<Vec<usize>>, wanted: &Option<Vec<usize>>) -> (steps: Vec<ReduceStep>)
    requires
        unbroadcast_defined(shape_view(*current), shape_view(*wanted)),
    ensures
        steps@ == unbroadcast_spec(shape_view(*current), shape_view(*wanted)),
{
    let c = match current {
        None => {
            return Vec::new();
        },
        Some(c) => c,
    };
    let w = match wanted {
        None => {
            return vec![ReduceStep::SumAll];
        },
        Some(w) => w,
    };
    if same_extents(c, w) {
        return Vec::new();
    }
    if w.len() == 0 {
        let steps = vec![ReduceStep::SumAll, ReduceStep::Wrap];
        assert(steps@ =~= seq![ReduceStep::SumAll, ReduceStep::Wrap]);
        return steps;
    }
    let d = c.len() - w.len();
    let ghost lead = Seq::new(d as nat, |i: int| ReduceStep::SumAxis(0));
    let ghost trimmed = c@.skip(d as int);
    let mut steps: Vec<ReduceStep> = Vec::new();
    let mut k: usize = 0;
    while k < d
        invariant
            k <= d,
            steps@ =~= Seq::new(k as nat, |i: int| ReduceStep::SumAxis(0)),
        decreases d - k,
    {
        steps.push(ReduceStep::SumAxis(0));
        k = k + 1;
    }
    assert(steps@ =~= lead);
    let mut axis: usize = w.len();
    while axis > 0
        invariant
            d + w@.len() == c@.len(),
            c@.len() == c.len(),
            trimmed == c@.skip(d as int),
            axis <= w@.len(),
            steps@ =~= lead + axis_sums(stretched_from(trimmed, w@, axis as int)),
        decreases axis,
    {
        axis = axis - 1;
        let ghost before = steps@;
        if w[axis] == 1 && c[d + axis] != 1 {
            steps.push(ReduceStep::SumAxis(axis));
        }
        proof {
            assert(trimmed[axis as int] == c@[d + axis]);
            let higher = stretched_from(trimmed, w@, axis + 1);
            assert(axis_sums(higher + seq![axis]) =~= axis_sums(higher) + seq![ReduceStep::SumAxis(axis)]);
            assert(axis_sums(higher + Seq::<usize>::empty()) =~= axis_sums(higher));
        }
    }
    if steps.len() > d {
        steps.push(ReduceStep::Reshape);
    } else {
        assert(axis_sums(stretched_from(trimmed, w@, 0)).len() == 0);
    }
    steps
}

/// The shape after one step, `wanted` being the operand's.
pub open spec fn step_shape(shape: Seq<usize>, step: ReduceStep, wanted: Seq<usize>) -> Seq<usize> {
    match step {
        ReduceStep::SumAll => Seq::empty(),
        ReduceStep::SumAxis(a) => shape.remove(a as int),
        ReduceStep::Reshape => wanted,
        ReduceStep::Wrap => wanted,
    }
}

/// The shape after every step, in order.
pub open spec fn shape_after(shape: Seq<usize>, steps: Seq<ReduceStep>, wanted: Seq<usize>) -> Seq<usize>
    decreases steps.len(),
{
    if steps.len() == 0 {
        shape
    } else {
        shape_after(step_shape(shape, steps[0], wanted), steps.drop_first(), wanted)
    }
}

/// Whether each axis sum names an axis of the shape it reads, and each re-description
/// keeps the number of elements.
pub open spec fn steps_well_formed(shape: Seq<usize>, steps: Seq<ReduceStep>, wanted: Seq<usize>) -> bool
    decreases steps.len(),
{
    steps.len() == 0 || ((match steps[0] {
        ReduceStep::SumAxis(a) => a < shape.len(),
        ReduceStep::Reshape => product(shape) == product(wanted),
        _ => true,
    }) && steps_well_formed(step_shape(shape, steps[0], wanted), steps.drop_first(), wanted))
}

/// Whether `current` is what broadcasting `wanted` against some shape gives: at least
/// as many axes, and each operand axis, aligned at the trailing end, either the
/// result's or one.
pub open spec fn stretches_to(wanted: Seq<usize>, current: Seq<usize>) -> bool {
    &&& wanted.len() <= current.len()
    &&& forall|i: int|
        0 <= i < wanted.len() ==> #[trigger] wanted[i] == 1 || wanted[i] == current[current.len()
            - wanted.len() + i]
}

/// The operand axes at or past `n` that survive the sums, in order.
pub open spec fn kept_from(trimmed: Seq<usize>, wanted: Seq<usize>, n: int) -> Seq<usize>
    decreases wanted.len() - n,
{
    if n < 0 || n >= wanted.len() {
        Seq::empty()
    } else if is_stretched(trimmed, wanted, n) {
        kept_from(trimmed, wanted, n + 1)
    } else {
        seq![trimmed[n]] + kept_from(trimmed, wanted, n + 1)
    }
}

/// Running steps one list after another is running them joined.
proof fn lemma_steps_concat(shape: Seq<usize>, x: Seq<ReduceStep>, y: Seq<ReduceStep>, wanted: Seq<usize>)
    ensures
        shape_after(shape, x + y, wanted) == shape_after(shape_after(shape, x, wanted), y, wanted),
        steps_well_formed(shape, x + y, wanted) == (steps_well_formed(shape, x, wanted)
            && steps_well_formed(shape_after(shape, x, wanted), y, wanted)),
    decreases x.len(),
{
    if x.len() == 0 {
        assert(x + y =~= y);
    } else {
        assert((x + y).drop_first() =~= x.drop_first() + y);
        assert((x + y)[0] == x[0]);
        lemma_steps_concat(step_shape(shape, x[0], wanted), x.drop_first(), y, wanted);
    }
}

/// Summing the first axis `d` times drops the first `d` axes.
proof fn lemma_leading_sums(shape: Seq<usize>, d: nat, wanted: Seq<usize>)
    requires
        d <= shape.len(),
    ensures
        shape_after(shape, Seq::new(d, |i: int| ReduceStep::SumAxis(0)), wanted) == shape.skip(d as int),
        steps_well_formed(shape, Seq::new(d, |i: int| ReduceStep::SumAxis(0)), wanted),
    decreases d,
{
    let lead = Seq::new(d, |i: int| ReduceStep::SumAxis(0));
    if d == 0 {
        assert(shape.skip(0) =~= shape);
    } else {
        assert(lead.drop_first() =~= Seq::new((d - 1) as nat, |i: int| ReduceStep::SumAxis(0)));
        lemma_leading_sums(shape.remove(0), (d - 1) as nat, wanted);
        assert(shape.remove(0).skip(d - 1) =~= shape.skip(d as int));
    }
}

/// Summing the stretched axes at or past `n`, highest first, leaves the axes below `n`
/// and the kept ones at or past it.
proof fn lemma_stretched_sums(trimmed: Seq<usize>, wanted: Seq<usize>, n: int)
    requires
        trimmed.len() == wanted.len(),
        wanted.len() <= usize::MAX,
        0 <= n <= wanted.len(),
    ensures
        shape_after(trimmed, axis_sums(stretched_from(trimmed, wanted, n)), wanted) == trimmed.take(n)
            + kept_from(trimmed, wanted, n),
        steps_well_formed(trimmed, axis_sums(stretched_from(trimmed, wanted, n)), wanted),
    decreases wanted.len() - n,
{
    if n == wanted.len() {
        assert(axis_sums(stretched_from(trimmed, wanted, n)) =~= Seq::<ReduceStep>::empty());
        assert(trimmed.take(n) =~= trimmed);
        assert(trimmed.take(n) + kept_from(trimmed, wanted, n) =~= trimmed);
    } else {
        lemma_stretched_sums(trimmed, wanted, n + 1);
        let higher = axis_sums(stretched_from(trimmed, wanted, n + 1));
        let mid = trimmed.take(n + 1) + kept_from(trimmed, wanted, n + 1);
        if is_stretched(trimmed, wanted, n) {
            let tail = seq![ReduceStep::SumAxis(n as usize)];
            assert(stretched_from(trimmed, wanted, n) =~= stretched_from(trimmed, wanted, n + 1) + seq![
                n as usize,
            ]);
            assert(axis_sums(stretched_from(trimmed, wanted, n)) =~= higher + tail);
            lemma_steps_concat(trimmed, higher, tail, wanted);
            let after = step_shape(mid, tail[0], wanted);
            assert(after == mid.remove(n));
            assert(tail.drop_first() =~= Seq::<ReduceStep>::empty());
            assert(shape_after(after, tail.drop_first(), wanted) == after);
            assert(steps_well_formed(after, tail.drop_first(), wanted));
            assert(shape_after(mid, tail, wanted) == after);
            assert(steps_well_formed(mid, tail, wanted));
            assert(mid.remove(n) =~= trimmed.take(n) + kept_from(trimmed, wanted, n));
        } else {
            assert(stretched_from(trimmed, wanted, n) =~= stretched_from(trimmed, wanted, n + 1));
            assert(axis_sums(stretched_from(trimmed, wanted, n)) =~= higher);
            assert(mid =~= trimmed.take(n) + kept_from(trimmed, wanted, n));
        }
    }
}

/// What survives the sums holds as many elements as the operand's axes at or past
/// `n`, and is those axes when nothing was stretched.
proof fn lemma_kept_count(trimmed: Seq<usize>, wanted: Seq<usize>, n: int)
    requires
        trimmed.len() == wanted.len(),
        0 <= n <= wanted.len(),
        forall|i: int| 0 <= i < wanted.len() ==> #[trigger] wanted[i] == 1 || wanted[i] == trimmed[i],
    ensures
        product(kept_from(trimmed, wanted, n)) == product(wanted.skip(n)),
        stretched_from(trimmed, wanted, n).len() == 0 ==> kept_from(trimmed, wanted, n) == wanted.skip(n),
    decreases wanted.len() - n,
{
    if n == wanted.len() {
        assert(wanted.skip(n) =~= Seq::<usize>::empty());
    } else {
        lemma_kept_count(trimmed, wanted, n + 1);
        assert(wanted.skip(n) =~= seq![wanted[n]] + wanted.skip(n + 1));
        lemma_product_concat(seq![wanted[n]], wanted.skip(n + 1));
        lemma_product_single(wanted[n]);
        let rest = product(wanted.skip(n + 1)) as int;
        if is_stretched(trimmed, wanted, n) {
            assert(wanted[n] == 1);
            assert(1 * rest == rest);
        } else {
            assert(trimmed[n] == wanted[n]);
            lemma_product_concat(seq![trimmed[n]], kept_from(trimmed, wanted, n + 1));
            lemma_product_single(trimmed[n]);
        }
    }
}

/// Summing a contribution back by [`unbroadcast_spec`] ends at the operand's shape,
/// every axis sum naming an axis and every re-description keeping the element count,
/// whenever the contribution's shape is the operand's, stretched.
pub proof fn lemma_unbroadcast_reaches_operand(current: Seq<usize>, wanted: Seq<usize>)
    requires
        stretches_to(wanted, current),
        current.len() <= usize::MAX,
    ensures
        shape_after(current, unbroadcast_spec(Some(current), Some(wanted)), wanted) == wanted,
        steps_well_formed(current, unbroadcast_spec(Some(current), Some(wanted)), wanted),
{
    let steps = unbroadcast_spec(Some(current), Some(wanted));
    if current == wanted {
        assert(steps.len() == 0);
    } else if wanted.len() == 0 {
        let first = step_shape(current, steps[0], wanted);
        assert(first =~= Seq::<usize>::empty());
        let rest = steps.drop_first();
        assert(rest =~= seq![ReduceStep::Wrap]);
        assert(rest.drop_first() =~= Seq::<ReduceStep>::empty());
        assert(shape_after(step_shape(first, rest[0], wanted), rest.drop_first(), wanted) == wanted);
        assert(steps_well_formed(step_shape(first, rest[0], wanted), rest.drop_first(), wanted));
        assert(shape_after(first, rest, wanted) == wanted);
        assert(steps_well_formed(first, rest, wanted));
    } else {
        let d = current.len() - wanted.len();
        let lead = Seq::new(d as nat, |i: int| ReduceStep::SumAxis(0));
        let trimmed = current.skip(d);
        let axes = axis_sums(stretched_from(trimmed, wanted, 0));
        assert forall|i: int| 0 <= i < wanted.len() implies #[trigger] wanted[i] == 1 || wanted[i]
            == trimmed[i] by {
            assert(trimmed[i] == current[current.len() - wanted.len() + i]);
        }
        lemma_leading_sums(current, d as nat, wanted);
        lemma_stretched_sums(trimmed, wanted, 0);
        lemma_kept_count(trimmed, wanted, 0);
        let kept = kept_from(trimmed, wanted, 0);
        assert(trimmed.take(0) + kept =~= kept);
        assert(wanted.skip(0) =~= wanted);
        lemma_steps_concat(current, lead, axes, wanted);
        assert(shape_after(current, lead + axes, wanted) == kept);
        assert(steps_well_formed(current, lead + axes, wanted));
        if axes.len() == 0 {
            assert(stretched_from(trimmed, wanted, 0).len() == 0);
            assert(lead + axes =~= lead);
            assert(steps == lead);
        } else {
            let tail = seq![ReduceStep::Reshape];
            assert(steps == lead + axes + tail);
            lemma_steps_concat(current, lead + axes, tail, wanted);
            assert(tail.drop_first() =~= Seq::<ReduceStep>::empty());
            assert(step_shape(kept, tail[0], wanted) == wanted);
            assert(shape_after(wanted, tail.drop_first(), wanted) == wanted);
            assert(steps_well_formed(wanted, tail.drop_first(), wanted));
            assert(shape_after(kept, tail, wanted) == wanted);
            assert(steps_well_formed(kept, tail, wanted));
        }
    }
}

/// A shape whose every extent is known.
pub open spec fn static_extents(shape: Seq<usize>) -> Seq<Option<usize>> {
    shape.map_values(|x: usize| Some(x))
}

/// The extents of a shape, reading an unknown one as zero.
pub open spec fn known_extents(shape: Seq<Option<usize>>) -> Seq<usize> {
    shape.map_values(
        |o: Option<usize>| match o {
            Some(x) => x,
            None => 0,
        },
    )
}

/// Broadcasting two shapes of known extents gives known extents, and stretches each
/// operand to the result.
pub proof fn lemma_broadcast_stretches_each_operand(
    a: Seq<usize>,
    a_names: Seq<Option<Seq<char>>>,
    b: Seq<usize>,
    b_names: Seq<Option<Seq<char>>>,
)
    requires
        broadcast_spec(static_extents(a), a_names, static_extents(b), b_names) is Some,
    ensures
        ({
            let joined = shape_of(broadcast_spec(static_extents(a), a_names, static_extents(b), b_names));
            &&& static_extents(known_extents(joined)) == joined
            &&& stretches_to(a, known_extents(joined))
            &&& stretches_to(b, known_extents(joined))
        }),
{
    let left = static_extents(a);
    let right = static_extents(b);
    let joined = shape_of(broadcast_spec(left, a_names, right, b_names));
    let rank = if a.len() >= b.len() {
        a.len()
    } else {
        b.len()
    };
    assert(joined.len() == rank);
    assert forall|p: int| 0 <= p < rank implies #[trigger] joined[p] is Some by {
        assert(broadcast_axis(left, a_names, right, b_names, p) is Some);
        assert(joined[p] == extent_of(broadcast_axis(left, a_names, right, b_names, p)));
    }
    assert(static_extents(known_extents(joined)) =~= joined);
    let c = known_extents(joined);
    assert forall|i: int| 0 <= i < a.len() implies #[trigger] a[i] == 1 || a[i] == c[c.len() - a.len() + i] by {
        let p = rank - a.len() + i;
        assert(broadcast_axis(left, a_names, right, b_names, p) is Some);
        assert(joined[p] == extent_of(broadcast_axis(left, a_names, right, b_names, p)));
    }
    assert forall|i: int| 0 <= i < b.len() implies #[trigger] b[i] == 1 || b[i] == c[c.len() - b.len() + i] by {
        let p = rank - b.len() + i;
        assert(broadcast_axis(left, a_names, right, b_names, p) is Some);
        assert(joined[p] == extent_of(broadcast_axis(left, a_names, right, b_names, p)));
    }
}

/// The contribution an element-wise operator's result sends back to either operand,
/// summed by [`unbroadcast_spec`], has exactly that operand's shape: the gradient of a
/// broadcast operation lands on each operand at the operand's own shape.
pub proof fn lemma_adjoint_returns_to_each_operand(
    a: Seq<usize>,
    a_names: Seq<Option<Seq<char>>>,
    b: Seq<usize>,
    b_names: Seq<Option<Seq<char>>>,
)
    requires
        broadcast_spec(static_extents(a), a_names, static_extents(b), b_names) is Some,
        a.len() <= usize::MAX,
        b.len() <= usize::MAX,
    ensures
        ({
            let c = known_extents(
                shape_of(broadcast_spec(static_extents(a), a_names, static_extents(b), b_names)),
            );
            &&& shape_after(c, unbroadcast_spec(Some(c), Some(a)), a) == a
            &&& steps_well_formed(c, unbroadcast_spec(Some(c), Some(a)), a)
            &&& shape_after(c, unbroadcast_spec(Some(c), Some(b)), b) == b
            &&& steps_well_formed(c, unbroadcast_spec(Some(c), Some(b)), b)
        }),
{
    lemma_broadcast_stretches_each_operand(a, a_names, b, b_names);
    let c = known_extents(shape_of(broadcast_spec(static_extents(a), a_names, static_extents(b), b_names)));
    assert(c.len() == a.len() || c.len() == b.len());
    lemma_unbroadcast_reaches_operand(c, a);
    lemma_unbroadcast_reaches_operand(c, b);
}

/// The shape a reduction's adjoint is re-described at before it is spread back over
/// the receiver: the receiver's, with the reduced axis at extent one.
pub fn restored_extents(extents: &Vec<usize>, axis: usize) -> (kept: Vec<usize>)
    requires
        axis < extents@.len(),
    ensures
        kept@ == extents@.update(axis as int, 1usize),
{
    let mut kept: Vec<usize> = Vec::new();
    let mut i: usize = 0;
    while i < extents.len()
        invariant
            axis < extents@.len(),
            i <= extents@.len(),
            kept@ =~= extents@.update(axis as int, 1usize).take(i as int),
        decreases extents@.len() - i,
    {
        if i == axis {
            kept.push(1);
        } else {
            kept.push(extents[i]);
        }
        i = i + 1;
    }
    assert(extents@.update(axis as int, 1usize).take(i as int) =~= extents@.update(axis as int, 1usize));
    kept
}

/// The adjoint of a reduction along `axis`, re-described with that axis back at extent
/// one, holds exactly the reduction result's elements, and stretches to the receiver's
/// shape, so multiplying it by the receiver-shaped ones spreads it over every element
/// the reduction summarised.
pub proof fn lemma_restored_adjoint_spreads(extents: Seq<usize>, axis: int)
    requires
        0 <= axis < extents.len(),
    ensures
        product(extents.update(axis, 1usize)) == product(extents.remove(axis)),
        stretches_to(extents.update(axis, 1usize), extents),
{
    let before = extents.take(axis);
    let after = extents.skip(axis + 1);
    assert(extents.update(axis, 1usize) =~= before + (seq![1usize] + after));
    assert(extents.remove(axis) =~= before + after);
    lemma_product_concat(before, seq![1usize] + after);
    lemma_product_concat(seq![1usize], after);
    lemma_product_single(1usize);
    lemma_product_concat(before, after);
    assert(product(seq![1usize] + after) == product(after));
}

} // verus!
