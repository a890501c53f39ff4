//! Row-major layout: how a tensor's element positions map to offsets in its buffer.

use vstd::prelude::*;
use vstd::arithmetic::div_mod::{
    lemma_fundamental_div_mod, lemma_fundamental_div_mod_converse_div,
    lemma_fundamental_div_mod_converse_mod,
};

verus! {

/// The number of elements a tensor of `shape` holds; the rank-0 shape holds one.
pub open spec fn product(shape: Seq<usize>) -> nat
    decreases shape.len(),
{
    if shape.len() == 0 {
        1
    } else {
        product(shape.drop_last()) * (shape.last() as nat)
    }
}

/// A single axis holds its extent's elements.
pub proof fn lemma_product_single(x: usize)
    ensures
        product(seq![x]) == x,
{
    assert(seq![x].drop_last() =~= Seq::<usize>::empty());
    assert(product(Seq::<usize>::empty()) == 1);
    assert(seq![x].last() == x);
    assert(product(seq![x]) == product(seq![x].drop_last()) * (seq![x].last() as nat));
}

/// The row-major offset of the element at `positions` in a tensor of `extents`.
pub open spec fn row_major(positions: Seq<int>, extents: Seq<usize>) -> int
    decreases positions.len(),
{
    if positions.len() == 0 || extents.len() == 0 {
        0
    } else {
        row_major(positions.drop_last(), extents.drop_last()) * extents.last() + positions.last()
    }
}

/// The position, one per axis, of the element at row-major offset `flat` in a tensor of
/// `extents`: the last axis varies fastest.
pub open spec fn coordinates_of(flat: int, extents: Seq<usize>) -> Seq<int>
    decreases extents.len(),
{
    if extents.len() == 0 {
        Seq::empty()
    } else {
        coordinates_of(flat / extents.last() as int, extents.drop_last()).push(
            flat % extents.last() as int,
        )
    }
}

/// Whether every position lies inside its axis.
pub open spec fn in_bounds(positions: Seq<int>, extents: Seq<usize>) -> bool {
    positions.len() == extents.len() && forall|i: int|
        0 <= i < positions.len() ==> 0 <= #[trigger] positions[i] < extents[i]
}

/// Whether no axis is empty.
pub open spec fn all_positive(extents: Seq<usize>) -> bool {
    forall|i: int| 0 <= i < extents.len() ==> #[trigger] extents[i] > 0
}

/// The element count of two runs of axes side by side is the product of theirs.
pub proof fn lemma_product_concat(a: Seq<usize>, b: Seq<usize>)
    ensures
        product(a + b) == product(a) * product(b),
    decreases b.len(),
{
    if b.len() == 0 {
        assert(a + b =~= a);
        assert(product(b) == 1);
    } else {
        lemma_product_concat(a, b.drop_last());
        assert((a + b).drop_last() =~= a + b.drop_last());
        assert((a + b).last() == b.last());
        let pa = product(a);
        let pb = product(b.drop_last());
        let l = b.last() as nat;
        assert(product(a + b) == product(a + b.drop_last()) * l);
        assert(product(b) == pb * l);
        assert(product(a + b.drop_last()) == pa * pb);
        assert(pa * pb * l == pa * (pb * l)) by (nonlinear_arith);
    }
}

/// Whether the element count of every leading run of axes fits in a `usize`, as
/// counting them one axis at a time needs.
pub open spec fn counts_fit(shape: Seq<usize>) -> bool {
    forall|n: int| 0 <= n <= shape.len() ==> #[trigger] product(shape.take(n)) <= usize::MAX
}

/// An offset inside the bounds lies below the element count.
pub proof fn lemma_row_major_bound(positions: Seq<int>, extents: Seq<usize>)
    requires
        in_bounds(positions, extents),
    ensures
        0 <= row_major(positions, extents) < product(extents),
    decreases positions.len(),
{
    if positions.len() > 0 {
        let p = positions.drop_last();
        let e = extents.drop_last();
        assert(in_bounds(p, e)) by {
            assert forall|i: int| 0 <= i < p.len() implies 0 <= #[trigger] p[i] < e[i] by {
                assert(positions[i] < extents[i]);
            }
        }
        lemma_row_major_bound(p, e);
        let r = row_major(p, e);
        let q = product(e) as int;
        let l = extents.last() as int;
        let last = positions.last();
        assert(0 <= last < l) by {
            assert(positions[positions.len() - 1] < extents[extents.len() - 1]);
        }
        assert(0 <= r * l + last < q * l) by (nonlinear_arith)
            requires
                0 <= r < q,
                0 <= last < l,
        ;
    }
}

/// The coordinates of an offset lie inside the bounds.
pub proof fn lemma_coordinates_in_bounds(flat: int, extents: Seq<usize>)
    requires
        all_positive(extents),
        0 <= flat,
    ensures
        in_bounds(coordinates_of(flat, extents), extents),
    decreases extents.len(),
{
    if extents.len() > 0 {
        let l = extents.last() as int;
        let e = extents.drop_last();
        assert(l > 0) by {
            assert(extents[extents.len() - 1] > 0);
        }
        assert(all_positive(e)) by {
            assert forall|i: int| 0 <= i < e.len() implies #[trigger] e[i] > 0 by {
                assert(extents[i] > 0);
            }
        }
        assert(flat / l >= 0) by (nonlinear_arith)
            requires
                flat >= 0,
                l > 0,
        ;
        lemma_coordinates_in_bounds(flat / l, e);
        let c = coordinates_of(flat, extents);
        assert forall|i: int| 0 <= i < c.len() implies 0 <= #[trigger] c[i] < extents[i] by {
            if i < c.len() - 1 {
                assert(c[i] == coordinates_of(flat / l, e)[i]);
            }
        }
    }
}

/// Reading an offset back out of its coordinates gives the offset.
pub proof fn lemma_row_major_of_coordinates(flat: int, extents: Seq<usize>)
    requires
        all_positive(extents),
        0 <= flat < product(extents),
    ensures
        row_major(coordinates_of(flat, extents), extents) == flat,
    decreases extents.len(),
{
    if extents.len() == 0 {
        assert(flat == 0);
    } else {
        let l = extents.last() as int;
        let e = extents.drop_last();
        let q = product(e) as int;
        assert(l > 0) by {
            assert(extents[extents.len() - 1] > 0);
        }
        assert(all_positive(e)) by {
            assert forall|i: int| 0 <= i < e.len() implies #[trigger] e[i] > 0 by {
                assert(extents[i] > 0);
            }
        }
        lemma_fundamental_div_mod(flat, l);
        assert(0 <= flat / l < q) by (nonlinear_arith)
            requires
                0 <= flat < q * l,
                l > 0,
                flat == l * (flat / l) + flat % l,
                0 <= flat % l < l,
        ;
        lemma_row_major_of_coordinates(flat / l, e);
        let c = coordinates_of(flat, extents);
        assert(c.drop_last() =~= coordinates_of(flat / l, e));
        assert(row_major(c, extents) == (flat / l) * l + flat % l);
        assert((flat / l) * l == l * (flat / l)) by (nonlinear_arith);
    }
}

/// The coordinates of a position's offset are that position.
pub proof fn lemma_coordinates_of_row_major(positions: Seq<int>, extents: Seq<usize>)
    requires
        in_bounds(positions, extents),
    ensures
        coordinates_of(row_major(positions, extents), extents) == positions,
    decreases positions.len(),
{
    if positions.len() > 0 {
        let p = positions.drop_last();
        let e = extents.drop_last();
        assert(in_bounds(p, e)) by {
            assert forall|i: int| 0 <= i < p.len() implies 0 <= #[trigger] p[i] < e[i] by {
                assert(positions[i] < extents[i]);
            }
        }
        let l = extents.last() as int;
        let last = positions.last();
        assert(0 <= last < l) by {
            assert(positions[positions.len() - 1] < extents[extents.len() - 1]);
        }
        let r = row_major(p, e);
        let flat = row_major(positions, extents);
        assert(flat == r * l + last);
        lemma_fundamental_div_mod_converse_div(flat, l, r, last);
        lemma_fundamental_div_mod_converse_mod(flat, l, r, last);
        lemma_coordinates_of_row_major(p, e);
        assert(coordinates_of(flat, extents) =~= positions);
    }
}

/// The number of elements a tensor of `shape` holds. The rank-0 shape holds one, which
/// is what makes the empty product the right answer.
pub fn tensor_element_count(shape: &Vec<usize>) -> (count: usize)
    requires
        counts_fit(shape@),
    ensures
        count == product(shape@),
{
    let mut count: usize = 1;
    let mut i: usize = 0;
    while i < shape.len()
        invariant
            i <= shape@.len(),
            counts_fit(shape@),
            count == product(shape@.take(i as int)),
        decreases shape@.len() - i,
    {
        proof {
            assert(shape@.take(i + 1).drop_last() =~= shape@.take(i as int));
            assert(product(shape@.take(i + 1)) <= usize::MAX);
        }
        count = count * shape[i];
        i = i + 1;
    }
    assert(shape@.take(i as int) =~= shape@);
    count
}

/// The value of each position that is a literal inside its axis, or `None` when one is
/// not.
pub open spec fn literal_positions(positions: Seq<Option<i128>>, extents: Seq<usize>) -> Option<
    Seq<int>,
> {
    if positions.len() == extents.len() && forall|i: int|
        0 <= i < positions.len() ==> (#[trigger] positions[i] matches Some(v) && 0 <= v < extents[i]) {
        Some(Seq::new(positions.len(), |i: int| positions[i]->0 as int))
    } else {
        None
    }
}

/// A row-major offset is at least that of any prefix of its positions.
proof fn lemma_row_major_prefix(positions: Seq<int>, extents: Seq<usize>, i: int)
    requires
        in_bounds(positions, extents),
        0 <= i <= positions.len(),
    ensures
        row_major(positions.take(i), extents.take(i)) <= row_major(positions, extents),
    decreases positions.len() - i,
{
    if i < positions.len() {
        let n = positions.len();
        lemma_row_major_prefix(positions, extents, i + 1);
        let p = positions.take(i + 1);
        let e = extents.take(i + 1);
        assert(p.drop_last() =~= positions.take(i));
        assert(e.drop_last() =~= extents.take(i));
        assert(in_bounds(positions.take(i), extents.take(i)));
        lemma_row_major_bound(positions.take(i), extents.take(i));
        let r = row_major(positions.take(i), extents.take(i));
        let x = extents[i] as int;
        assert(p.last() == positions[i] && e.last() == extents[i]);
        assert(0 <= positions[i] < x);
        assert(r <= r * x) by (nonlinear_arith)
            requires
                r >= 0,
                x >= 1,
        ;
    } else {
        assert(positions.take(i) =~= positions);
        assert(extents.take(i) =~= extents);
    }
}

/// The row-major offset an element read names, when every position is a literal inside
/// its extent (`None` for a position only known at run time, written `None` here).
pub fn literal_offset(extents: &Vec<usize>, positions: &Vec<Option<i128>>) -> (offset: Option<usize>)
    requires
        literal_positions(positions@, extents@) matches Some(p) ==> row_major(p, extents@) <= usize::MAX,
    ensures
        offset == match literal_positions(positions@, extents@) {
            Some(p) => Some(row_major(p, extents@) as usize),
            None => None::<usize>,
        },
        offset matches Some(f) ==> f < product(extents@),
{
    if extents.len() != positions.len() {
        return None;
    }
    let ghost n = extents@.len();
    let mut k: usize = 0;
    while k < extents.len()
        invariant
            n == extents@.len(),
            n == positions@.len(),
            k <= n,
            forall|j: int| 0 <= j < k ==> (#[trigger] positions@[j] matches Some(v) && 0 <= v
                < extents@[j]),
        decreases n - k,
    {
        match positions[k] {
            Some(v) => {
                if v < 0 || v >= extents[k] as i128 {
                    proof {
                        assert(!(positions@[k as int] matches Some(w) && 0 <= w < extents@[k as int]));
                    }
                    return None;
                }
            },
            None => {
                return None;
            },
        }
        k = k + 1;
    }
    let ghost p = Seq::new(n, |j: int| positions@[j]->0 as int);
    proof {
        assert(literal_positions(positions@, extents@) == Some(p));
        assert(in_bounds(p, extents@));
    }
    let mut flat: usize = 0;
    let mut i: usize = 0;
    while i < extents.len()
        invariant
            n == extents@.len(),
            n == positions@.len(),
            i <= n,
            in_bounds(p, extents@),
            p == Seq::new(n, |j: int| positions@[j]->0 as int),
            row_major(p, extents@) <= usize::MAX,
            forall|j: int| 0 <= j < n ==> (#[trigger] positions@[j] matches Some(v) && 0 <= v
                < extents@[j]),
            flat == row_major(p.take(i as int), extents@.take(i as int)),
        decreases n - i,
    {
        let extent = extents[i];
        let index = match positions[i] {
            Some(v) => v as usize,
            None => 0,
        };
        proof {
            let after = p.take(i + 1);
            let prefix = extents@.take(i + 1);
            assert(after.drop_last() =~= p.take(i as int));
            assert(prefix.drop_last() =~= extents@.take(i as int));
            assert(after.last() == index && prefix.last() == extent);
            lemma_row_major_prefix(p, extents@, i + 1);
            assert(flat * extent + index == row_major(after, prefix));
        }
        flat = flat * extent + index;
        i = i + 1;
    }
    proof {
        assert(extents@.take(n as int) =~= extents@);
        assert(p.take(n as int) =~= p);
        lemma_row_major_bound(p, extents@);
    }
    Some(flat)
}

/// The position, one per axis, of the element at row-major offset `flat`.
pub fn coordinates(flat: usize, extents: &Vec<usize>) -> (positions: Vec<usize>)
    requires
        all_positive(extents@),
    ensures
        positions@.len() == extents@.len(),
        forall|i: int| 0 <= i < extents@.len() ==> #[trigger] positions@[i] as int == coordinates_of(
            flat as int,
            extents@,
        )[i],
{
    let n = extents.len();
    let mut positions: Vec<usize> = Vec::new();
    let mut k: usize = 0;
    while k < n
        invariant
            k <= n,
            positions@.len() == k,
            forall|j: int| 0 <= j < k ==> positions@[j] == 0,
        decreases n - k,
    {
        positions.push(0);
        k = k + 1;
    }
    let mut rest: usize = flat;
    let mut i: usize = n;
    proof {
        assert(extents@.take(n as int) =~= extents@);
        assert(positions@.skip(n as int).map_values(|p: usize| p as int) =~= Seq::<int>::empty());
    }
    while i > 0
        invariant
            n == extents@.len(),
            i <= n,
            positions@.len() == n,
            all_positive(extents@),
            coordinates_of(flat as int, extents@) =~= coordinates_of(
                rest as int,
                extents@.take(i as int),
            ) + positions@.skip(i as int).map_values(|p: usize| p as int),
        decreases i,
    {
        let extent = extents[i - 1];
        proof {
            assert(extents@[i - 1] > 0);
            assert(extents@.take(i as int).drop_last() =~= extents@.take(i - 1));
        }
        positions.set(i - 1, rest % extent);
        rest = rest / extent;
        i = i - 1;
    }
    positions
}

/// How a slice reads one axis of the tensor it slices.
#[derive(Debug, Clone, Copy, PartialEq, Eq)]
pub enum SliceAxis {
    /// One position: its value where it is an integer literal, `None` where it is only
    /// known at run time.
    Position(Option<i128>),
    /// The positions `start..end`, walked backwards where `reversed`.
    Range { start: usize, end: usize, reversed: bool },
}

/// The positions a slice visits along one axis of `extent`, in the result's order;
/// `None` where they are not all known at compile time and inside the axis.
pub open spec fn axis_visits(axis: SliceAxis, extent: usize) -> Option<Seq<int>> {
    match axis {
        SliceAxis::Position(Some(v)) => if 0 <= v < extent {
            Some(seq![v as int])
        } else {
            None
        },
        SliceAxis::Position(None) => None,
        SliceAxis::Range { start, end, reversed } => if start > end || end > extent {
            None
        } else if reversed {
            Some(Seq::new((end - start) as nat, |i: int| end - 1 - i))
        } else {
            Some(Seq::new((end - start) as nat, |i: int| start + i))
        },
    }
}

/// The visits along every axis, where each is known.
pub open spec fn all_visits(axes: Seq<SliceAxis>, extents: Seq<usize>) -> Option<Seq<Seq<int>>> {
    if axes.len() == extents.len() && forall|k: int|
        0 <= k < axes.len() ==> #[trigger] axis_visits(axes[k], extents[k]) is Some {
        Some(Seq::new(axes.len(), |k: int| axis_visits(axes[k], extents[k])->0))
    } else {
        None
    }
}

/// Each of `bases` moved one axis in, followed by each position `along` that axis.
pub open spec fn spread(bases: Seq<int>, along: Seq<int>, extent: int) -> Seq<int>
    decreases bases.len(),
{
    if bases.len() == 0 {
        Seq::empty()
    } else {
        spread(bases.drop_last(), along, extent) + along.map_values(|at: int| bases.last() * extent + at)
    }
}

/// The offsets of a slice's elements, in the result's row-major order, from the
/// positions it visits along each axis.
pub open spec fn slice_offsets(visits: Seq<Seq<int>>, extents: Seq<usize>) -> Seq<int>
    decreases visits.len(),
{
    if visits.len() == 0 {
        seq![0]
    } else {
        let k = visits.len() - 1;
        spread(slice_offsets(visits.drop_last(), extents.take(k)), visits[k], extents[k] as int)
    }
}

/// Each of `prefixes` extended by each position `along` the next axis.
pub open spec fn spread_positions(prefixes: Seq<Seq<int>>, along: Seq<int>) -> Seq<Seq<int>>
    decreases prefixes.len(),
{
    if prefixes.len() == 0 {
        Seq::empty()
    } else {
        spread_positions(prefixes.drop_last(), along) + along.map_values(
            |at: int| prefixes.last().push(at),
        )
    }
}

/// The positions of a slice's elements, in the result's row-major order.
pub open spec fn slice_positions(visits: Seq<Seq<int>>) -> Seq<Seq<int>>
    decreases visits.len(),
{
    if visits.len() == 0 {
        seq![Seq::empty()]
    } else {
        spread_positions(slice_positions(visits.drop_last()), visits.last())
    }
}

/// Spreading offsets is spreading positions, read as offsets.
proof fn lemma_spread_offsets(prefixes: Seq<Seq<int>>, along: Seq<int>, extents: Seq<usize>, extent: usize)
    requires
        forall|i: int| 0 <= i < prefixes.len() ==> #[trigger] prefixes[i].len() == extents.len(),
    ensures
        spread(prefixes.map_values(|p: Seq<int>| row_major(p, extents)), along, extent as int)
            == spread_positions(prefixes, along).map_values(
            |p: Seq<int>| row_major(p, extents.push(extent)),
        ),
    decreases prefixes.len(),
{
    let offsets = prefixes.map_values(|p: Seq<int>| row_major(p, extents));
    if prefixes.len() == 0 {
        assert(spread_positions(prefixes, along).map_values(|p: Seq<int>| row_major(p, extents.push(extent)))
            =~= Seq::<int>::empty());
    } else {
        let init = prefixes.drop_last();
        lemma_spread_offsets(init, along, extents, extent);
        assert(offsets.drop_last() =~= init.map_values(|p: Seq<int>| row_major(p, extents)));
        let last = prefixes.last();
        assert(last.len() == extents.len());
        let left = spread(offsets, along, extent as int);
        let right = spread_positions(prefixes, along).map_values(
            |p: Seq<int>| row_major(p, extents.push(extent)),
        );
        let head = spread_positions(init, along).map_values(
            |p: Seq<int>| row_major(p, extents.push(extent)),
        );
        assert forall|j: int| 0 <= j < along.len() implies row_major(last.push(along[j]), extents.push(extent))
            == row_major(last, extents) * extent + along[j] by {
            assert(last.push(along[j]).drop_last() =~= last);
            assert(extents.push(extent).drop_last() =~= extents);
        }
        assert(right =~= head + along.map_values(|at: int| row_major(last, extents) * extent + at));
        assert(left =~= right);
    }
}

/// A slice reads each element at the row-major offset of the position it selects.
pub proof fn lemma_slice_offsets_are_row_major(visits: Seq<Seq<int>>, extents: Seq<usize>)
    requires
        visits.len() == extents.len(),
    ensures
        forall|i: int|
            0 <= i < slice_positions(visits).len() ==> #[trigger] slice_positions(visits)[i].len()
                == visits.len(),
        slice_offsets(visits, extents) == slice_positions(visits).map_values(
            |p: Seq<int>| row_major(p, extents),
        ),
    decreases visits.len(),
{
    if visits.len() == 0 {
        assert(slice_positions(visits).map_values(|p: Seq<int>| row_major(p, extents)) =~= seq![0int]);
    } else {
        let k = visits.len() - 1;
        let init = visits.drop_last();
        let prefix = extents.take(k);
        lemma_slice_offsets_are_row_major(init, prefix);
        let prefixes = slice_positions(init);
        lemma_spread_offsets(prefixes, visits[k], prefix, extents[k]);
        assert(prefix.push(extents[k]) =~= extents);
        lemma_spread_positions_len(prefixes, visits[k], k);
    }
}

/// Extending positions of length `k` by one axis gives positions of length `k + 1`.
proof fn lemma_spread_positions_len(prefixes: Seq<Seq<int>>, along: Seq<int>, k: int)
    requires
        forall|i: int| 0 <= i < prefixes.len() ==> #[trigger] prefixes[i].len() == k,
    ensures
        forall|i: int|
            0 <= i < spread_positions(prefixes, along).len() ==> #[trigger] spread_positions(
                prefixes,
                along,
            )[i].len() == k + 1,
    decreases prefixes.len(),
{
    if prefixes.len() > 0 {
        lemma_spread_positions_len(prefixes.drop_last(), along, k);
        let head = spread_positions(prefixes.drop_last(), along);
        let tail = along.map_values(|at: int| prefixes.last().push(at));
        assert forall|i: int| 0 <= i < (head + tail).len() implies #[trigger] (head + tail)[i].len() == k + 1 by {
            if i >= head.len() {
                assert((head + tail)[i] == tail[i - head.len()]);
            }
        }
    }
}

/// The positions visited along an axis lie inside it.
proof fn lemma_visits_in_axis(axis: SliceAxis, extent: usize)
    requires
        axis_visits(axis, extent) is Some,
    ensures
        forall|a: int|
            0 <= a < axis_visits(axis, extent)->0.len() ==> 0 <= #[trigger] axis_visits(axis, extent)->0[a]
                < extent,
{
}

/// A list of offsets as integers.
pub open spec fn ints(s: Seq<usize>) -> Seq<int> {
    s.map_values(|x: usize| x as int)
}

/// The positions a slice visits along one axis of `extent`.
fn visits_along(axis: SliceAxis, extent: usize) -> (visits: Option<Vec<usize>>)
    ensures
        match visits {
            Some(v) => axis_visits(axis, extent) == Some(ints(v@)),
            None => axis_visits(axis, extent) is None,
        },
{
    match axis {
        SliceAxis::Position(Some(value)) => {
            if value < 0 || value >= extent as i128 {
                return None;
            }
            let along: Vec<usize> = vec![value as usize];
            assert(ints(along@) =~= seq![value as int]);
            Some(along)
        },
        SliceAxis::Position(None) => None,
        SliceAxis::Range { start, end, reversed } => {
            if start > end || end > extent {
                return None;
            }
            let mut along: Vec<usize> = Vec::new();
            let mut i: usize = 0;
            while i < end - start
                invariant
                    start <= end,
                    i <= end - start,
                    along@.len() == i,
                    forall|j: int|
                        0 <= j < i ==> #[trigger] along@[j] == if reversed {
                            end - 1 - j
                        } else {
                            start + j
                        },
                decreases end - start - i,
            {
                if reversed {
                    along.push(end - 1 - i);
                } else {
                    along.push(start + i);
                }
                i = i + 1;
            }
            if reversed {
                assert(ints(along@) =~= Seq::new((end - start) as nat, |j: int| end - 1 - j));
            } else {
                assert(ints(along@) =~= Seq::new((end - start) as nat, |j: int| start + j));
            }
            Some(along)
        },
    }
}

/// For a slice whose every axis is a literal position or a range inside its extent,
/// the offset in the sliced tensor of each result element, in the result's row-major
/// order; `None` where some axis is not known at compile time or leaves its extent.
pub fn slice_sources(extents: &Vec<usize>, axes: &Vec<SliceAxis>) -> (sources: Option<Vec<usize>>)
    requires
        counts_fit(extents@),
    ensures
        match sources {
            Some(s) => all_visits(axes@, extents@) matches Some(v) && ints(s@) == slice_offsets(
                v,
                extents@,
            ),
            None => all_visits(axes@, extents@) is None,
        },
{
    if extents.len() != axes.len() {
        return None;
    }
    let n = axes.len();
    let mut visits: Vec<Vec<usize>> = Vec::new();
    let mut k: usize = 0;
    while k < n
        invariant
            n == axes@.len(),
            n == extents@.len(),
            k <= n,
            visits@.len() == k,
            forall|j: int| 0 <= j < k ==> axis_visits(axes@[j], extents@[j]) == Some(ints(#[trigger] visits@[j]@)),
        decreases n - k,
    {
        match visits_along(axes[k], extents[k]) {
            Some(along) => {
                visits.push(along);
            },
            None => {
                return None;
            },
        }
        k = k + 1;
    }
    let ghost all = Seq::new(n as nat, |j: int| axis_visits(axes@[j], extents@[j])->0);
    assert forall|j: int| 0 <= j < n implies #[trigger] axis_visits(axes@[j], extents@[j]) is Some by {
        assert(axis_visits(axes@[j], extents@[j]) == Some(ints(visits@[j]@)));
    }
    assert(all_visits(axes@, extents@) == Some(all));
    assert forall|j: int, a: int| 0 <= j < n && 0 <= a < visits@[j]@.len() implies #[trigger] visits@[j]@[a]
        < extents@[j] by {
        assert(axis_visits(axes@[j], extents@[j]) == Some(ints(visits@[j]@)));
        lemma_visits_in_axis(axes@[j], extents@[j]);
        assert(ints(visits@[j]@)[a] == visits@[j]@[a] as int);
        assert(axis_visits(axes@[j], extents@[j])->0[a] == visits@[j]@[a] as int);
    }
    let mut sources: Vec<usize> = vec![0];
    assert(ints(sources@) =~= seq![0int]);
    assert(extents@.take(0) =~= Seq::<usize>::empty());
    let mut k: usize = 0;
    while k < n
        invariant
            n == axes@.len(),
            n == extents@.len(),
            k <= n,
            visits@.len() == n,
            counts_fit(extents@),
            all.len() == n,
            forall|j: int| 0 <= j < n ==> #[trigger] all[j] == ints(visits@[j]@),
            forall|j: int, a: int|
                0 <= j < n && 0 <= a < visits@[j]@.len() ==> #[trigger] visits@[j]@[a] < extents@[j],
            ints(sources@) == slice_offsets(all.take(k as int), extents@.take(k as int)),
            forall|b: int| 0 <= b < sources@.len() ==> #[trigger] sources@[b] < product(extents@.take(k as int)),
        decreases n - k,
    {
        let along = &visits[k];
        let extent = extents[k];
        let ghost bound = product(extents@.take(k as int));
        proof {
            assert(extents@.take(k + 1).drop_last() =~= extents@.take(k as int));
            assert(product(extents@.take(k + 1)) == bound * extent);
            assert(product(extents@.take(k + 1)) <= usize::MAX);
            assert forall|a: int| 0 <= a < along@.len() implies #[trigger] along@[a] < extent by {
                assert(visits@[k as int]@[a] < extents@[k as int]);
            }
        }
        let mut next: Vec<usize> = Vec::new();
        let mut b: usize = 0;
        while b < sources.len()
            invariant
                b <= sources@.len(),
                extent == extents@[k as int],
                bound * extent <= usize::MAX,
                forall|c: int| 0 <= c < sources@.len() ==> #[trigger] sources@[c] < bound,
                forall|a: int| 0 <= a < along@.len() ==> #[trigger] along@[a] < extent,
                ints(next@) == spread(ints(sources@).take(b as int), ints(along@), extent as int),
                forall|c: int| 0 <= c < next@.len() ==> #[trigger] next@[c] < bound * extent,
            decreases sources@.len() - b,
        {
            let base = sources[b];
            let ghost before = next@;
            let mut a: usize = 0;
            while a < along.len()
                invariant
                    a <= along@.len(),
                    base < bound,
                    bound * extent <= usize::MAX,
                    forall|i: int| 0 <= i < along@.len() ==> #[trigger] along@[i] < extent,
                    ints(next@) == ints(before) + ints(along@).take(a as int).map_values(
                        |at: int| base * extent + at,
                    ),
                    forall|c: int| 0 <= c < next@.len() ==> #[trigger] next@[c] < bound * extent,
                decreases along@.len() - a,
            {
                let at = along[a];
                assert(base * extent + at < bound * extent) by (nonlinear_arith)
                    requires
                        base < bound,
                        at < extent,
                ;
                let ghost prev = next@;
                next.push(base * extent + at);
                proof {
                    let f = |x: int| base * extent + x;
                    assert(ints(along@).take(a + 1) =~= ints(along@).take(a as int).push(at as int));
                    assert(ints(along@).take(a + 1).map_values(f) =~= ints(along@).take(a as int).map_values(
                        f,
                    ).push(base * extent + at));
                    assert(ints(next@) =~= ints(prev).push(base * extent + at));
                }
                a = a + 1;
                assert(ints(next@) =~= ints(before) + ints(along@).take(a as int).map_values(
                    |at: int| base * extent + at,
                ));
            }
            proof {
                assert(ints(along@).take(a as int) =~= ints(along@));
                assert(ints(sources@).take(b + 1).drop_last() =~= ints(sources@).take(b as int));
                assert(ints(sources@).take(b + 1).last() == base as int);
            }
            b = b + 1;
        }
        proof {
            assert(ints(sources@).take(b as int) =~= ints(sources@));
            assert(all.take(k + 1).drop_last() =~= all.take(k as int));
            assert(all.take(k + 1)[k as int] == ints(along@));
            assert(extents@.take(k + 1).take(k as int) =~= extents@.take(k as int));
        }
        sources = next;
        k = k + 1;
    }
    proof {
        assert(all.take(n as int) =~= all);
        assert(extents@.take(n as int) =~= extents@);
    }
    Some(sources)
}

} // verus!
