//! Tensor value construction: a nested array literal flattened into row-major buffer
//! order, and the six `Tensor::<T, [...]>::ctor(...)` construction helpers.
//!
//! The element expressions themselves are the caller's: each is known here by the
//! identifier the caller gave it, and comes out in the order the buffer holds it.

use vstd::prelude::*;
use vstd::string::*;

use super::layout::{lemma_product_concat, lemma_product_single, product};
use super::methods::{
    same_text, CTOR_FROM, CTOR_IDENTITY, CTOR_ONES, CTOR_RANDOM_NORMAL, CTOR_SCALAR, CTOR_ZEROS,
};
use super::{concat3, malformed, LoweringError, LoweringErrorView};

verus! {

/// An expression written where a tensor's elements go: an array literal, whose entries
/// are nested the same way, or any other expression. Each carries the identifier its
/// caller knows it by.
#[derive(Debug, PartialEq)]
pub enum LiteralNode {
    Leaf(u64),
    Nested { id: u64, elements: Vec<LiteralNode> },
}

/// The identifier of `node`.
pub open spec fn node_id(node: LiteralNode) -> u64 {
    match node {
        LiteralNode::Leaf(id) => id,
        LiteralNode::Nested { id, .. } => id,
    }
}

/// The identifier of `node`.
pub fn literal_id(node: &LiteralNode) -> (id: u64)
    ensures
        id == node_id(*node),
{
    match node {
        LiteralNode::Leaf(id) => *id,
        LiteralNode::Nested { id, .. } => *id,
    }
}

/// The element identifiers of `nodes`, one nesting level of a tensor literal with
/// `levels` levels from here down, in row-major order; `None` when an entry above the
/// last level is not itself an array literal.
pub open spec fn literal_leaves(nodes: Seq<LiteralNode>, levels: nat) -> Option<Seq<u64>>
    decreases nodes,
{
    if nodes.len() == 0 {
        Some(Seq::empty())
    } else {
        let last = nodes[nodes.len() - 1];
        let tail = if levels <= 1 {
            Some(seq![node_id(last)])
        } else {
            match last {
                LiteralNode::Leaf(_) => None,
                LiteralNode::Nested { elements, .. } => {
                    proof {
                        assert(decreases_to!(nodes => nodes[nodes.len() - 1]));
                    }
                    literal_leaves(elements@, (levels - 1) as nat)
                },
            }
        };
        match literal_leaves(nodes.drop_last(), levels) {
            None => None,
            Some(prefix) => match tail {
                None => None,
                Some(t) => Some(prefix + t),
            },
        }
    }
}

/// The leaves of `nodes` appended to `out`, or `false` when an entry above the last
/// level is not an array literal.
fn flatten_level(nodes: &Vec<LiteralNode>, levels: usize, out: &mut Vec<u64>) -> (ok: bool)
    requires
        levels >= 1,
    ensures
        ok == (literal_leaves(nodes@, levels as nat) is Some),
        ok ==> final(out)@ == old(out)@ + literal_leaves(nodes@, levels as nat)->Some_0,
    decreases nodes@,
{
    let ghost start = out@;
    let mut i: usize = 0;
    while i < nodes.len()
        invariant
            levels >= 1,
            i <= nodes@.len(),
            literal_leaves(nodes@.take(i as int), levels as nat) is Some,
            out@ == start + literal_leaves(nodes@.take(i as int), levels as nat)->Some_0,
        decreases nodes@.len() - i,
    {
        let ghost before = out@;
        proof {
            assert(nodes@.take(i + 1).drop_last() =~= nodes@.take(i as int));
            assert(nodes@.take(i + 1)[i as int] == nodes@[i as int]);
        }
        if levels == 1 {
            out.push(literal_id(&nodes[i]));
            assert(out@ =~= start + literal_leaves(nodes@.take(i + 1), levels as nat)->Some_0);
        } else {
            match &nodes[i] {
                LiteralNode::Leaf(_) => {
                    assert(literal_leaves(nodes@.take(i + 1), levels as nat) is None);
                    proof {
                        lemma_leaves_fail_from(nodes@, levels as nat, i + 1);
                    }
                    return false;
                },
                LiteralNode::Nested { elements, .. } => {
                    proof {
                        assert(decreases_to!(nodes@ => nodes@[i as int]));
                    }
                    if !flatten_level(elements, levels - 1, out) {
                        assert(literal_leaves(nodes@.take(i + 1), levels as nat) is None);
                        proof {
                            lemma_leaves_fail_from(nodes@, levels as nat, i + 1);
                        }
                        return false;
                    }
                    assert(out@ =~= start + literal_leaves(nodes@.take(i + 1), levels as nat)->Some_0);
                },
            }
        }
        i = i + 1;
    }
    assert(nodes@.take(i as int) =~= nodes@);
    true
}

/// Once a prefix of a level has no leaves, neither has the level.
proof fn lemma_leaves_fail_from(nodes: Seq<LiteralNode>, levels: nat, n: int)
    requires
        0 <= n <= nodes.len(),
        literal_leaves(nodes.take(n), levels) is None,
    ensures
        literal_leaves(nodes, levels) is None,
    decreases nodes.len() - n,
{
    if n < nodes.len() {
        assert(nodes.take(n + 1).drop_last() =~= nodes.take(n));
        lemma_leaves_fail_from(nodes, levels, n + 1);
    } else {
        assert(nodes.take(n) =~= nodes);
    }
}

/// The flattening of a literal written for a tensor of `shape`: its element
/// identifiers in row-major order, or the detail of its refusal.
pub open spec fn flatten_spec(elements: Seq<LiteralNode>, shape: Seq<usize>) -> Result<Seq<u64>, Seq<char>> {
    if shape.len() == 0 {
        Err("a rank-0 tensor has no array literal form"@)
    } else {
        match literal_leaves(elements, shape.len()) {
            Some(leaves) => Ok(leaves),
            None => Err("a tensor literal axis holds nested literals"@),
        }
    }
}

/// Whether `r` is the outcome `spec` describes, an error as its detail.
pub open spec fn flatten_outcome(r: Result<Vec<u64>, LoweringError>, spec: Result<Seq<u64>, Seq<char>>) -> bool {
    match r {
        Ok(v) => spec == Ok::<Seq<u64>, Seq<char>>(v@),
        Err(e) => spec matches Err(d) && e@ == (LoweringErrorView::Malformed { detail: d }),
    }
}

/// The element identifiers of a literal written for a tensor of `shape`, in the
/// row-major order of its buffer. Only the rank is read: the checker has already held
/// each level to its extent.
pub fn flatten_tensor_literal(elements: &Vec<LiteralNode>, shape: &Vec<usize>) -> (r: Result<
    Vec<u64>,
    LoweringError,
>)
    ensures
        flatten_outcome(r, flatten_spec(elements@, shape@)),
{
    if shape.len() == 0 {
        return Err(malformed(String::from_str("a rank-0 tensor has no array literal form")));
    }
    let mut flat: Vec<u64> = Vec::new();
    if flatten_level(elements, shape.len(), &mut flat) {
        assert(flat@ =~= literal_leaves(elements@, shape@.len())->Some_0);
        Ok(flat)
    } else {
        Err(malformed(String::from_str("a tensor literal axis holds nested literals")))
    }
}

/// Whether `nodes` is a literal of exactly `shape`: as many entries as the first
/// extent, each, above the last level, an array literal of the rest of the shape.
pub open spec fn conforms(nodes: Seq<LiteralNode>, shape: Seq<usize>) -> bool
    decreases nodes,
{
    &&& shape.len() >= 1
    &&& nodes.len() == shape[0]
    &&& shape.len() > 1 ==> forall|i: int|
        #![trigger nodes[i]]
        0 <= i < nodes.len() ==> match nodes[i] {
            LiteralNode::Leaf(_) => false,
            LiteralNode::Nested { elements, .. } => {
                proof {
                    assert(decreases_to!(nodes => nodes[i]));
                }
                conforms(elements@, shape.drop_first())
            },
        }
}

/// A literal of exactly its shape flattens, and yields as many elements as the shape
/// holds.
pub proof fn lemma_conforming_literal_fills_its_shape(nodes: Seq<LiteralNode>, shape: Seq<usize>)
    requires
        conforms(nodes, shape),
    ensures
        flatten_spec(nodes, shape) matches Ok(leaves) && leaves.len() == product(shape),
{
    lemma_conforming_level(nodes, shape);
}

/// The first `n` entries of a conforming level yield `n` times the rest of the shape.
proof fn lemma_level_count(nodes: Seq<LiteralNode>, shape: Seq<usize>, n: int)
    requires
        conforms(nodes, shape),
        0 <= n <= nodes.len(),
    ensures
        literal_leaves(nodes.take(n), shape.len()) matches Some(leaves) && leaves.len() == n
            * product(shape.drop_first()),
    decreases nodes, n,
{
    let rest = shape.drop_first();
    if n == 0 {
        assert(nodes.take(0) =~= Seq::<LiteralNode>::empty());
    } else {
        lemma_level_count(nodes, shape, n - 1);
        let prefix = nodes.take(n);
        assert(prefix.drop_last() =~= nodes.take(n - 1));
        assert(prefix[n - 1] == nodes[n - 1]);
        if shape.len() <= 1 {
            assert(rest.len() == 0);
            assert(product(rest) == 1);
        } else {
            let last = nodes[n - 1];
            assert(last is Nested);
            let elements = last->elements;
            assert(decreases_to!(nodes => nodes[n - 1]));
            lemma_conforming_level(elements@, rest);
        }
        let p = product(rest) as int;
        assert((n - 1) * p + p == n * p) by (nonlinear_arith);
    }
}

/// A conforming inner level yields the product of its shape.
proof fn lemma_conforming_level(nodes: Seq<LiteralNode>, shape: Seq<usize>)
    requires
        conforms(nodes, shape),
    ensures
        literal_leaves(nodes, shape.len()) matches Some(leaves) && leaves.len() == product(shape),
    decreases nodes, nodes.len() + 1,
{
    lemma_level_count(nodes, shape, nodes.len() as int);
    assert(nodes.take(nodes.len() as int) =~= nodes);
    assert(seq![shape[0]] + shape.drop_first() =~= shape);
    lemma_product_concat(seq![shape[0]], shape.drop_first());
    lemma_product_single(shape[0]);
}

/// What a `Tensor::ctor(args)` call builds, once its tensor type is known.
#[derive(Debug, PartialEq)]
pub enum Construction {
    /// Every element the constant `1` (`ones`) or `0` (`zeros`), at the element type.
    Fill { one: bool },
    /// The identity matrix.
    Identity,
    /// Normally distributed elements, of the mean and standard deviation written.
    RandomNormal { mean: u64, std: u64 },
    /// The elements written, in buffer order.
    Literal(Vec<u64>),
}

/// A [`Construction`] with its elements as a sequence.
pub enum ConstructionView {
    Fill { one: bool },
    Identity,
    RandomNormal { mean: u64, std: u64 },
    Literal(Seq<u64>),
}

impl View for Construction {
    type V = ConstructionView;

    open spec fn view(&self) -> ConstructionView {
        match self {
            Construction::Fill { one } => ConstructionView::Fill { one: *one },
            Construction::Identity => ConstructionView::Identity,
            Construction::RandomNormal { mean, std } => ConstructionView::RandomNormal {
                mean: *mean,
                std: *std,
            },
            Construction::Literal(elements) => ConstructionView::Literal(elements@),
        }
    }
}

/// `Tensor::ctor(args)` for a tensor of `shape`, or the detail of its refusal.
pub open spec fn construction_spec(ctor: Seq<char>, args: Seq<LiteralNode>, shape: Seq<usize>) -> Result<
    ConstructionView,
    Seq<char>,
> {
    if ctor == CTOR_ZEROS@ {
        Ok(ConstructionView::Fill { one: false })
    } else if ctor == CTOR_ONES@ {
        Ok(ConstructionView::Fill { one: true })
    } else if ctor == CTOR_IDENTITY@ {
        Ok(ConstructionView::Identity)
    } else if ctor == CTOR_RANDOM_NORMAL@ {
        if args.len() == 2 {
            Ok(ConstructionView::RandomNormal { mean: node_id(args[0]), std: node_id(args[1]) })
        } else {
            Err("`Tensor::random_normal` takes a mean and a standard deviation"@)
        }
    } else if ctor == CTOR_SCALAR@ {
        if args.len() == 1 {
            Ok(ConstructionView::Literal(seq![node_id(args[0])]))
        } else {
            Err("`Tensor::scalar` takes one value"@)
        }
    } else if ctor == CTOR_FROM@ {
        if args.len() == 1 && args[0] is Nested {
            match flatten_spec(args[0]->elements@, shape) {
                Ok(leaves) => Ok(ConstructionView::Literal(leaves)),
                Err(d) => Err(d),
            }
        } else {
            Err("`Tensor::from` takes a nested array literal"@)
        }
    } else {
        Err("`Tensor` has no constructor named '"@ + ctor + "'"@)
    }
}

/// `Tensor::ctor(args)` for a tensor of `shape`: which node it builds, and from which
/// of the written arguments.
pub fn plan_construction(ctor: &str, args: &Vec<LiteralNode>, shape: &Vec<usize>) -> (r: Result<
    Construction,
    LoweringError,
>)
    ensures
        match r {
            Ok(c) => construction_spec(ctor@, args@, shape@) == Ok::<ConstructionView, Seq<char>>(c@),
            Err(e) => construction_spec(ctor@, args@, shape@) matches Err(d) && e@
                == (LoweringErrorView::Malformed { detail: d }),
        },
{
    if same_text(ctor, CTOR_ZEROS) {
        Ok(Construction::Fill { one: false })
    } else if same_text(ctor, CTOR_ONES) {
        Ok(Construction::Fill { one: true })
    } else if same_text(ctor, CTOR_IDENTITY) {
        Ok(Construction::Identity)
    } else if same_text(ctor, CTOR_RANDOM_NORMAL) {
        if args.len() == 2 {
            Ok(Construction::RandomNormal { mean: literal_id(&args[0]), std: literal_id(&args[1]) })
        } else {
            Err(
                malformed(
                    String::from_str("`Tensor::random_normal` takes a mean and a standard deviation"),
                ),
            )
        }
    } else if same_text(ctor, CTOR_SCALAR) {
        if args.len() == 1 {
            let elements = vec![literal_id(&args[0])];
            assert(elements@ =~= seq![node_id(args@[0])]);
            Ok(Construction::Literal(elements))
        } else {
            Err(malformed(String::from_str("`Tensor::scalar` takes one value")))
        }
    } else if same_text(ctor, CTOR_FROM) {
        if args.len() == 1 {
            if let LiteralNode::Nested { elements, .. } = &args[0] {
                return match flatten_tensor_literal(elements, shape) {
                    Ok(flat) => Ok(Construction::Literal(flat)),
                    Err(e) => Err(e),
                };
            }
        }
        Err(malformed(String::from_str("`Tensor::from` takes a nested array literal")))
    } else {
        Err(malformed(concat3("`Tensor` has no constructor named '", ctor, "'")))
    }
}

} // verus!
