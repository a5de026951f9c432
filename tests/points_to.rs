use std::collections::HashMap;

use static_alias_analyzer::points_to::PointsToGraph;

#[test]
fn unknown_slots_never_alias() {
    let mut g = PointsToGraph::new();
    g.constant(1);
    assert!(!g.are_alias(1, 2));
    assert!(!g.are_alias(2, 1));
    assert!(!g.are_alias(5, 6));
}

#[test]
fn constant_registers_a_slot_once() {
    let mut g = PointsToGraph::new();
    assert!(!g.does_variable_exits(4));
    g.constant(4);
    assert!(g.does_variable_exits(4));
    let node = g.get_variable(4);
    g.constant(4);
    assert_eq!(g.get_variable(4), node);
    assert_eq!(g.graph.node_count(), 1);
    assert_eq!(g.graph[petgraph::graph::NodeIndex::new(node)], 4);
}

#[test]
fn a_slot_aliases_itself_once_registered() {
    let mut g = PointsToGraph::new();
    g.constant(1);
    assert!(g.are_alias(1, 1));
}

#[test]
fn pointer_aliases_its_target_and_transitively() {
    let mut g = PointsToGraph::new();
    g.constant(1);
    g.points_to(2, 1);
    g.points_to(3, 2);
    assert!(g.are_alias(2, 1));
    assert!(g.are_alias(3, 1));
    assert!(g.are_alias(3, 2));
}

#[test]
fn aliasing_is_symmetric() {
    let mut g = PointsToGraph::new();
    g.constant(1);
    g.constant(5);
    g.points_to(2, 1);
    g.points_to(3, 2);
    g.points_to(4, 5);
    for a in 0..7u32 {
        for b in 0..7u32 {
            assert_eq!(g.are_alias(a, b), g.are_alias(b, a), "slots {} and {}", a, b);
        }
    }
    assert!(!g.are_alias(4, 3));
}

#[test]
fn two_pointers_to_one_slot_alias() {
    let mut g = PointsToGraph::new();
    g.constant(3);
    g.points_to(1, 3);
    g.points_to(2, 3);
    assert!(g.are_alias(1, 2));
    assert!(g.are_alias(2, 1));
}

#[test]
fn value_overwrite_clears_pointer_relationships() {
    let mut g = PointsToGraph::new();
    g.constant(3);
    g.points_to(1, 3);
    g.points_to(2, 3);
    assert!(g.are_alias(1, 2));
    g.constant(1);
    assert!(!g.are_alias(1, 2));
    assert!(!g.are_alias(1, 3));
    assert!(g.are_alias(2, 3));
    assert_eq!(g.graph.edge_count(), 1);
}

#[test]
fn value_overwrite_keeps_aliasing_through_incoming_edges() {
    let mut g = PointsToGraph::new();
    g.constant(1);
    g.points_to(2, 1);
    g.points_to(1, 2);
    g.constant(1);
    assert!(g.are_alias(2, 1));
    assert!(g.are_alias(1, 2));
}

#[test]
fn value_overwrite_removes_every_outgoing_edge() {
    let mut g = PointsToGraph::new();
    g.constant(10);
    g.constant(11);
    g.constant(12);
    g.points_to(1, 10);
    g.points_to(2, 11);
    g.points_to(1, 11);
    g.points_to(3, 12);
    g.points_to(1, 12);
    g.points_to(1, 10);
    g.constant(1);
    assert_eq!(g.graph.edge_count(), 2);
    assert!(!g.are_alias(1, 10));
    assert!(!g.are_alias(1, 11));
    assert!(!g.are_alias(1, 12));
    assert!(g.are_alias(2, 11));
    assert!(g.are_alias(3, 12));
}

#[test]
fn suspects_are_nodes_with_two_distinct_sources() {
    let mut g = PointsToGraph::new();
    g.constant(1);
    g.constant(2);
    g.points_to(3, 1);
    g.points_to(4, 1);
    g.points_to(5, 2);
    g.points_to(5, 2);
    assert_eq!(g.aliasing_test(), vec![1]);
}

#[test]
fn no_suspects_in_an_empty_graph() {
    let g = PointsToGraph::new();
    assert!(g.aliasing_test().is_empty());
}

#[test]
fn extend_maps_parameters_onto_arguments() {
    // Caller: slot 7 points to slot 6.
    let mut caller = PointsToGraph::new();
    caller.constant(6);
    caller.points_to(7, 6);
    caller.constant(8);
    // Callee: parameters 1 and 2 both point to its slot 3.
    let mut callee = PointsToGraph::new();
    callee.constant(3);
    callee.points_to(1, 3);
    callee.points_to(2, 3);
    let mut args = HashMap::new();
    args.insert(1u32, 7u32);
    args.insert(2u32, 8u32);
    let before = caller.graph.node_count();
    caller.extend(callee.graph, args);
    // Only the callee's slot 3 is new.
    assert_eq!(caller.graph.node_count(), before + 1);
    assert_eq!(caller.graph.edge_count(), 3);
    assert!(caller.are_alias(7, 8));
    assert!(caller.are_alias(7, 6));
    assert!(!caller.are_alias(8, 6));
}

#[test]
fn extend_without_mapping_imports_fresh_nodes() {
    let mut caller = PointsToGraph::new();
    caller.constant(1);
    let mut callee = PointsToGraph::new();
    callee.constant(1);
    callee.points_to(2, 1);
    caller.extend(callee.graph, HashMap::new());
    assert_eq!(caller.graph.node_count(), 3);
    assert_eq!(caller.graph.edge_count(), 1);
    assert!(!caller.are_alias(1, 2));
    assert!(!caller.does_variable_exits(2));
}
