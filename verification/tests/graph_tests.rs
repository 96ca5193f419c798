use render_graph::graph::{GraphError, RenderGraph};
use render_graph::slot::{ResourceType, SlotInfo};

fn texture_slot(name: &str) -> SlotInfo {
    SlotInfo::new(name.to_string(), ResourceType::Texture)
}

fn buffer_slot(name: &str) -> SlotInfo {
    SlotInfo::new(name.to_string(), ResourceType::Buffer)
}

#[test]
fn topological_order_follows_insertion_order_without_edges() {
    let mut graph = RenderGraph::new();
    graph.add_system_node("a".to_string()).unwrap();
    graph.add_system_node("b".to_string()).unwrap();
    graph.add_system_node("c".to_string()).unwrap();
    assert_eq!(graph.topo_order(), vec![0, 1, 2]);
}

#[test]
fn topological_order_is_deterministic() {
    let mut graph = RenderGraph::new();
    graph.add_system_node("a".to_string()).unwrap();
    graph.add_system_node("b".to_string()).unwrap();
    graph.add_system_node("c".to_string()).unwrap();
    graph
        .add_node_edge(&"c".to_string(), &"a".to_string())
        .unwrap();
    let first = graph.topo_order();
    let second = graph.topo_order();
    assert_eq!(first, second);
    assert_eq!(first, vec![1, 2, 0]);
}

#[test]
fn cycle_forming_edge_is_refused_without_mutating_graph_state() {
    let mut graph = RenderGraph::new();
    graph.add_system_node("a".to_string()).unwrap();
    graph.add_system_node("b".to_string()).unwrap();
    graph
        .add_node_edge(&"a".to_string(), &"b".to_string())
        .unwrap();
    let before = graph.topo_order();
    let result = graph.add_node_edge(&"b".to_string(), &"a".to_string());
    assert_eq!(result, Err(GraphError::CycleWouldForm));
    assert_eq!(graph.topo_order(), before);
    // the graph still works: an unrelated edge is accepted afterwards
    graph.add_system_node("c".to_string()).unwrap();
    graph
        .add_node_edge(&"b".to_string(), &"c".to_string())
        .unwrap();
    assert_eq!(graph.topo_order(), vec![0, 1, 2]);
}

#[test]
fn self_edge_is_refused_as_cycle() {
    let mut graph = RenderGraph::new();
    graph.add_system_node("a".to_string()).unwrap();
    let result = graph.add_node_edge(&"a".to_string(), &"a".to_string());
    assert_eq!(result, Err(GraphError::CycleWouldForm));
}

#[test]
fn duplicate_node_name_is_refused() {
    let mut graph = RenderGraph::new();
    graph.add_system_node("a".to_string()).unwrap();
    let result = graph.add_system_node("a".to_string());
    assert_eq!(result, Err(GraphError::NodeAlreadyExists));
}

#[test]
fn edge_to_unknown_node_is_refused() {
    let mut graph = RenderGraph::new();
    graph.add_system_node("a".to_string()).unwrap();
    let result = graph.add_node_edge(&"a".to_string(), &"missing".to_string());
    assert_eq!(result, Err(GraphError::UnknownNode));
}

#[test]
fn slot_edge_type_mismatch_is_refused() {
    let mut graph = RenderGraph::new();
    graph
        .add_node("producer".to_string(), vec![], vec![texture_slot("out")])
        .unwrap();
    graph
        .add_node("consumer".to_string(), vec![buffer_slot("in")], vec![])
        .unwrap();
    let result = graph.add_slot_edge(
        &"producer".to_string(),
        &"out".to_string(),
        &"consumer".to_string(),
        &"in".to_string(),
    );
    assert_eq!(result, Err(GraphError::MismatchedSlotType));
}

#[test]
fn slot_edge_unknown_slots_are_refused() {
    let mut graph = RenderGraph::new();
    graph
        .add_node("producer".to_string(), vec![], vec![texture_slot("out")])
        .unwrap();
    graph
        .add_node("consumer".to_string(), vec![texture_slot("in")], vec![])
        .unwrap();
    let bad_output = graph.add_slot_edge(
        &"producer".to_string(),
        &"nope".to_string(),
        &"consumer".to_string(),
        &"in".to_string(),
    );
    assert_eq!(bad_output, Err(GraphError::UnknownOutputSlot));
    let bad_input = graph.add_slot_edge(
        &"producer".to_string(),
        &"out".to_string(),
        &"consumer".to_string(),
        &"nope".to_string(),
    );
    assert_eq!(bad_input, Err(GraphError::UnknownInputSlot));
}

#[test]
fn input_slot_accepts_only_one_edge() {
    let mut graph = RenderGraph::new();
    graph
        .add_node("p1".to_string(), vec![], vec![texture_slot("out")])
        .unwrap();
    graph
        .add_node("p2".to_string(), vec![], vec![texture_slot("out")])
        .unwrap();
    graph
        .add_node("consumer".to_string(), vec![texture_slot("in")], vec![])
        .unwrap();
    graph
        .add_slot_edge(
            &"p1".to_string(),
            &"out".to_string(),
            &"consumer".to_string(),
            &"in".to_string(),
        )
        .unwrap();
    let second = graph.add_slot_edge(
        &"p2".to_string(),
        &"out".to_string(),
        &"consumer".to_string(),
        &"in".to_string(),
    );
    assert_eq!(second, Err(GraphError::InputAlreadyOccupied));
}

#[test]
fn slot_edge_orders_producer_before_consumer() {
    let mut graph = RenderGraph::new();
    graph
        .add_node("consumer".to_string(), vec![texture_slot("in")], vec![])
        .unwrap();
    graph
        .add_node("producer".to_string(), vec![], vec![texture_slot("out")])
        .unwrap();
    graph
        .add_slot_edge(
            &"producer".to_string(),
            &"out".to_string(),
            &"consumer".to_string(),
            &"in".to_string(),
        )
        .unwrap();
    let order = graph.topo_order();
    let producer_pos = order.iter().position(|&n| n == 1).unwrap();
    let consumer_pos = order.iter().position(|&n| n == 0).unwrap();
    assert!(producer_pos < consumer_pos);
}
