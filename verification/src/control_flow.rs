//! Control-flow graphs: basic blocks joined by edges recorded at both ends.

use vstd::prelude::*;

verus! {

/// A basic block: its id (its index in the graph) and the ids at either end of its edges.
#[derive(Debug, Clone)]
pub struct BasicBlock {
    pub id: usize,
    pub predecessors: Vec<usize>,
    pub successors: Vec<usize>,
}

impl BasicBlock {
    /// A block with no edges.
    pub fn new(id: usize) -> (block: Self)
        ensures
            block.id == id,
            block.predecessors@ == Seq::<usize>::empty(),
            block.successors@ == Seq::<usize>::empty(),
    {
        BasicBlock { id, predecessors: Vec::new(), successors: Vec::new() }
    }
}

/// A control-flow graph: its blocks, in id order.
#[derive(Debug)]
pub struct ControlFlowGraph {
    pub blocks: Vec<BasicBlock>,
}

/// How many times `x` occurs in `s`.
pub open spec fn occurrences(s: Seq<usize>, x: usize) -> nat
    decreases s.len(),
{
    if s.len() == 0 {
        0
    } else {
        occurrences(s.drop_last(), x) + if s.last() == x { 1nat } else { 0nat }
    }
}

/// Appending `y` adds an occurrence of `x` exactly when `y` is `x`.
proof fn lemma_occurrences_push(s: Seq<usize>, y: usize, x: usize)
    ensures
        occurrences(s.push(y), x) == occurrences(s, x) + if y == x { 1nat } else { 0nat },
{
    assert(s.push(y).drop_last() =~= s);
}

impl ControlFlowGraph {
    /// Every block sits at the index its id names.
    pub open spec fn ids_match(&self) -> bool {
        forall|i: int| 0 <= i < self.blocks@.len() ==> (#[trigger] self.blocks@[i]).id == i
    }

    /// Every edge end names a block of the graph.
    pub open spec fn closed(&self) -> bool {
        &&& forall|i: int, j: int|
            0 <= i < self.blocks@.len() && 0 <= j < self.blocks@[i].successors@.len()
                ==> #[trigger] self.blocks@[i].successors@[j] < self.blocks@.len()
        &&& forall|i: int, j: int|
            0 <= i < self.blocks@.len() && 0 <= j < self.blocks@[i].predecessors@.len()
                ==> #[trigger] self.blocks@[i].predecessors@[j] < self.blocks@.len()
    }

    /// Each edge `a -> b` between blocks of the graph is recorded as often among `a`'s
    /// successors as among `b`'s predecessors.
    pub open spec fn symmetric(&self) -> bool {
        forall|a: int, b: int|
            0 <= a < self.blocks@.len() && 0 <= b < self.blocks@.len() ==> occurrences(
                #[trigger] self.blocks@[a].successors@,
                b as usize,
            ) == occurrences(#[trigger] self.blocks@[b].predecessors@, a as usize)
    }

    /// A graph that `new`, `add_block` and `add_edge` between its blocks keep sound.
    pub open spec fn well_formed(&self) -> bool {
        self.ids_match() && self.closed() && self.symmetric()
    }

    /// An empty graph.
    pub fn new() -> (graph: Self)
        ensures
            graph.blocks@.len() == 0,
            graph.well_formed(),
    {
        ControlFlowGraph { blocks: Vec::new() }
    }

    /// Append a block without edges; its id is the number of blocks before it.
    pub fn add_block(&mut self) -> (id: usize)
        requires
            old(self).blocks@.len() < usize::MAX,
        ensures
            id == old(self).blocks@.len(),
            final(self).blocks@.len() == old(self).blocks@.len() + 1,
            forall|i: int|
                0 <= i < old(self).blocks@.len() ==> #[trigger] final(self).blocks@[i]
                    == old(self).blocks@[i],
            final(self).blocks@[id as int].id == id,
            final(self).blocks@[id as int].predecessors@ == Seq::<usize>::empty(),
            final(self).blocks@[id as int].successors@ == Seq::<usize>::empty(),
            old(self).ids_match() ==> final(self).ids_match(),
            old(self).well_formed() ==> final(self).well_formed(),
    {
        let id = self.blocks.len();
        self.blocks.push(BasicBlock::new(id));
        proof {
            if old(self).well_formed() {
                assert forall|a: int, b: int|
                    0 <= a < self.blocks@.len() && 0 <= b < self.blocks@.len() implies occurrences(
                    #[trigger] self.blocks@[a].successors@,
                    b as usize,
                ) == occurrences(#[trigger] self.blocks@[b].predecessors@, a as usize) by {
                    if a == id as int || b == id as int {
                        if a < id as int {
                            self.lemma_absent(old(self).blocks@[a].successors@, id);
                        }
                        if b < id as int {
                            self.lemma_absent(old(self).blocks@[b].predecessors@, id);
                        }
                    }
                }
            }
        }
        id
    }

    /// A sequence of values all below `x` holds no `x`.
    proof fn lemma_absent(&self, s: Seq<usize>, x: usize)
        requires
            forall|j: int| 0 <= j < s.len() ==> s[j] < x,
        ensures
            occurrences(s, x) == 0,
        decreases s.len(),
    {
        if s.len() > 0 {
            self.lemma_absent(s.drop_last(), x);
        }
    }

    /// The edge relation after `from -> to` is recorded: `next` is `self` with `to`
    /// appended to `from`'s successors and `from` to `to`'s predecessors, where they exist.
    pub open spec fn edge_recorded(&self, next: &Self, from: usize, to: usize) -> bool {
        &&& next.blocks@.len() == self.blocks@.len()
        &&& forall|i: int|
            0 <= i < self.blocks@.len() ==> (#[trigger] next.blocks@[i]).id == self.blocks@[i].id
        &&& forall|i: int|
            0 <= i < self.blocks@.len() ==> (#[trigger] next.blocks@[i]).successors@ == if i
                == from {
                self.blocks@[i].successors@.push(to)
            } else {
                self.blocks@[i].successors@
            }
        &&& forall|i: int|
            0 <= i < self.blocks@.len() ==> (#[trigger] next.blocks@[i]).predecessors@ == if i
                == to {
                self.blocks@[i].predecessors@.push(from)
            } else {
                self.blocks@[i].predecessors@
            }
    }

    /// Append `x` to the successors (`successor` set) or the predecessors of block `at`.
    fn push_neighbour(&mut self, at: usize, x: usize, successor: bool)
        requires
            at < old(self).blocks@.len(),
        ensures
            final(self).blocks@.len() == old(self).blocks@.len(),
            forall|i: int|
                0 <= i < old(self).blocks@.len() && i != at ==> #[trigger] final(self).blocks@[i]
                    == old(self).blocks@[i],
            final(self).blocks@[at as int].id == old(self).blocks@[at as int].id,
            final(self).blocks@[at as int].successors@ == if successor {
                old(self).blocks@[at as int].successors@.push(x)
            } else {
                old(self).blocks@[at as int].successors@
            },
            final(self).blocks@[at as int].predecessors@ == if successor {
                old(self).blocks@[at as int].predecessors@
            } else {
                old(self).blocks@[at as int].predecessors@.push(x)
            },
    {
        let mut block = self.blocks.remove(at);
        if successor {
            block.successors.push(x);
        } else {
            block.predecessors.push(x);
        }
        self.blocks.insert(at, block);
    }

    /// Recording an edge between two blocks of a well-formed graph keeps it well-formed.
    proof fn lemma_edge_keeps_well_formed(&self, next: &Self, from: usize, to: usize)
        requires
            self.well_formed(),
            self.edge_recorded(next, from, to),
            from < self.blocks@.len(),
            to < self.blocks@.len(),
        ensures
            next.well_formed(),
    {
        assert forall|a: int, b: int|
            0 <= a < next.blocks@.len() && 0 <= b < next.blocks@.len() implies occurrences(
            #[trigger] next.blocks@[a].successors@,
            b as usize,
        ) == occurrences(#[trigger] next.blocks@[b].predecessors@, a as usize) by {
            assert(occurrences(self.blocks@[a].successors@, b as usize) == occurrences(
                self.blocks@[b].predecessors@,
                a as usize,
            ));
            if a == from as int {
                lemma_occurrences_push(self.blocks@[a].successors@, to, b as usize);
            }
            if b == to as int {
                lemma_occurrences_push(self.blocks@[b].predecessors@, from, a as usize);
            }
        }
        assert forall|i: int, j: int|
            0 <= i < next.blocks@.len() && 0 <= j < next.blocks@[i].successors@.len()
                implies #[trigger] next.blocks@[i].successors@[j] < next.blocks@.len() by {
            if i == from as int && j == self.blocks@[i].successors@.len() {
            } else {
                assert(next.blocks@[i].successors@[j] == self.blocks@[i].successors@[j]);
            }
        }
        assert forall|i: int, j: int|
            0 <= i < next.blocks@.len() && 0 <= j < next.blocks@[i].predecessors@.len()
                implies #[trigger] next.blocks@[i].predecessors@[j] < next.blocks@.len() by {
            if i == to as int && j == self.blocks@[i].predecessors@.len() {
            } else {
                assert(next.blocks@[i].predecessors@[j] == self.blocks@[i].predecessors@[j]);
            }
        }
    }

    /// Record the edge `from -> to`: `to` joins `from`'s successors when `from` is a
    /// block, and `from` joins `to`'s predecessors when `to` is one.
    pub fn add_edge(&mut self, from: usize, to: usize)
        ensures
            old(self).edge_recorded(final(self), from, to),
            old(self).well_formed() && from < old(self).blocks@.len() && to < old(self).blocks@.len()
                ==> final(self).well_formed(),
    {
        let ghost start = *self;
        let len = self.blocks.len();
        if from < len {
            self.push_neighbour(from, to, true);
        }
        if to < len {
            self.push_neighbour(to, from, false);
        }
        proof {
            assert(start.edge_recorded(self, from, to));
            if start.well_formed() && from < len && to < len {
                start.lemma_edge_keeps_well_formed(self, from, to);
            }
        }
    }
}

/// Why a control-flow graph could not be built.
#[derive(Debug, PartialEq, Eq, Structural)]
pub enum ControlFlowError {
    UnreachableCode,
    MissingReturn,
}

impl ControlFlowError {
    /// The message this error is displayed with.
    pub fn message(&self) -> (text: &'static str)
        ensures
            text@ == match self {
                ControlFlowError::UnreachableCode => "unreachable code detected"@,
                ControlFlowError::MissingReturn => "missing return statement"@,
            },
    {
        match self {
            ControlFlowError::UnreachableCode => "unreachable code detected",
            ControlFlowError::MissingReturn => "missing return statement",
        }
    }
}

/// Build a control-flow graph; at this stage it is always the empty graph.
pub fn build_cfg() -> (result: Result<ControlFlowGraph, ControlFlowError>)
    ensures
        result matches Ok(graph) && graph.blocks@.len() == 0 && graph.well_formed(),
{
    Ok(ControlFlowGraph::new())
}

} // verus!
