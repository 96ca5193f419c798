use render_graph::executor::FrameError;
use render_graph::graph::RenderGraph;
use render_graph::slot::{ResourceType, SlotInfo, SlotValue};

fn two_node_graph() -> RenderGraph {
    let mut graph = RenderGraph::new();
    graph
        .add_node(
            "a".to_string(),
            vec![],
            vec![SlotInfo::new(
                "shadow_texture".to_string(),
                ResourceType::Texture,
            )],
        )
        .unwrap();
    graph
        .add_node(
            "b".to_string(),
            vec![SlotInfo::new(
                "shadow_texture".to_string(),
                ResourceType::Texture,
            )],
            vec![],
        )
        .unwrap();
    graph
        .add_slot_edge(
            &"a".to_string(),
            &"shadow_texture".to_string(),
            &"b".to_string(),
            &"shadow_texture".to_string(),
        )
        .unwrap();
    graph
}

#[test]
fn consumer_receives_the_exact_handle_the_producer_made() {
    // Node a outputs the shadow texture; node b declares it as input.
    // After a ran, b's resolved input is identical to the handle a
    // produced this frame.
    let graph = two_node_graph();
    let mut frame = graph.begin_frame();
    assert_eq!(frame.current_node(), Some(0));
    let inputs_a = frame.gather_inputs().unwrap();
    assert!(inputs_a.is_empty());
    let produced = SlotValue::Texture(0xABCD);
    frame.complete_node(vec![Some(produced)]).unwrap();
    assert_eq!(frame.current_node(), Some(1));
    let inputs_b = frame.gather_inputs().unwrap();
    assert_eq!(inputs_b, vec![produced]);
    frame.complete_node(vec![]).unwrap();
    assert_eq!(frame.current_node(), None);
}

#[test]
fn unfilled_producer_output_aborts_the_frame() {
    let graph = two_node_graph();
    let mut frame = graph.begin_frame();
    frame.complete_node(vec![None]).unwrap();
    assert_eq!(frame.gather_inputs(), Err(FrameError::MissingSlotValue));
}

#[test]
fn wrong_output_count_is_refused() {
    let graph = two_node_graph();
    let mut frame = graph.begin_frame();
    let result = frame.complete_node(vec![]);
    assert_eq!(result, Err(FrameError::WrongOutputCount));
}

#[test]
fn mismatched_output_type_is_refused() {
    let graph = two_node_graph();
    let mut frame = graph.begin_frame();
    let result = frame.complete_node(vec![Some(SlotValue::Buffer(1))]);
    assert_eq!(result, Err(FrameError::MismatchedOutputType));
}

#[test]
fn completing_after_the_frame_is_refused() {
    let graph = two_node_graph();
    let mut frame = graph.begin_frame();
    frame.complete_node(vec![Some(SlotValue::Texture(1))]).unwrap();
    frame.complete_node(vec![]).unwrap();
    let result = frame.complete_node(vec![]);
    assert_eq!(result, Err(FrameError::NoNodePending));
}
