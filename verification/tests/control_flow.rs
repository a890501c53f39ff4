use neuro_compiler::control_flow::{build_cfg, BasicBlock, ControlFlowGraph};

#[test]
fn cfg_add_block() {
    let mut cfg = ControlFlowGraph::new();
    let id = cfg.add_block();
    assert_eq!(id, 0);
    assert_eq!(cfg.blocks.len(), 1);
}

#[test]
fn block_ids_count_up_from_zero() {
    let mut cfg = ControlFlowGraph::new();
    assert_eq!(cfg.add_block(), 0);
    assert_eq!(cfg.add_block(), 1);
    assert_eq!(cfg.add_block(), 2);
    assert_eq!(cfg.blocks.len(), 3);
    assert_eq!(cfg.blocks[2].id, 2);
}

#[test]
fn an_edge_is_recorded_at_both_ends() {
    let mut cfg = ControlFlowGraph::new();
    let a = cfg.add_block();
    let b = cfg.add_block();
    cfg.add_edge(a, b);
    assert_eq!(cfg.blocks[a].successors, vec![b]);
    assert_eq!(cfg.blocks[b].predecessors, vec![a]);
    assert!(cfg.blocks[a].predecessors.is_empty());
    assert!(cfg.blocks[b].successors.is_empty());
}

#[test]
fn an_edge_to_a_missing_block_is_recorded_only_where_it_starts() {
    let mut cfg = ControlFlowGraph::new();
    let a = cfg.add_block();
    cfg.add_edge(a, 7);
    assert_eq!(cfg.blocks[a].successors, vec![7]);
    assert_eq!(cfg.blocks.len(), 1);
}

#[test]
fn a_self_loop_is_both_successor_and_predecessor() {
    let mut cfg = ControlFlowGraph::new();
    let a = cfg.add_block();
    cfg.add_edge(a, a);
    assert_eq!(cfg.blocks[a].successors, vec![a]);
    assert_eq!(cfg.blocks[a].predecessors, vec![a]);
}

#[test]
fn a_new_block_has_no_neighbours() {
    let block = BasicBlock::new(4);
    assert_eq!(block.id, 4);
    assert!(block.predecessors.is_empty());
    assert!(block.successors.is_empty());
}

#[test]
fn build_cfg_gives_the_empty_graph() {
    let cfg = build_cfg().expect("building a graph cannot fail yet");
    assert!(cfg.blocks.is_empty());
}

use neuro_compiler::control_flow::ControlFlowError;

#[test]
fn control_flow_errors_display_their_reason() {
    assert_eq!(ControlFlowError::UnreachableCode.message(), "unreachable code detected");
    assert_eq!(ControlFlowError::MissingReturn.message(), "missing return statement");
}
