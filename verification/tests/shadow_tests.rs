use render_graph::command::RenderCommand;
use render_graph::compiler::{compile_pass, PipelineSet};
use render_graph::layout::PipelineLayout;
use render_graph::layout::VertexBufferLayout;
use render_graph::shadow_pass::{emit_shadow_pass_commands, CasterCommands, ShadowPassNode};
use render_graph::shadows_node::{collect_shadow_commands, ShadowsNode};

fn caster_stream(pipeline: u64) -> CasterCommands {
    CasterCommands {
        commands: vec![
            RenderCommand::SetPipeline { pipeline },
            RenderCommand::SetVertexBuffer { slot: 0, buffer: 11, offset: 0 },
            RenderCommand::Draw {
                vertices_start: 0,
                vertices_end: 36,
                instances_start: 0,
                instances_end: 1,
            },
        ],
    }
}

fn payloads_for(lights: usize) -> Vec<Vec<u8>> {
    let mut payloads = Vec::new();
    let mut i = 0u8;
    while (i as usize) < lights * 6 {
        payloads.push(vec![i, 0, 0, 0]);
        i += 1;
    }
    payloads
}

#[test]
fn shared_pipeline_across_lights_faces_and_casters_compiles_to_one_pipeline_call() {
    // 2 lights, 6 faces each, 3 casters sharing one pipeline: the
    // compiled stream sets the pipeline once, not 36 times.
    let casters = vec![caster_stream(7), caster_stream(7), caster_stream(7)];
    let camera_commands = vec![(
        7u64,
        vec![RenderCommand::SetBindGroup {
            index: 0,
            bind_group: 5,
            dynamic_uniform_indices: vec![],
        }],
    )];
    let stream = emit_shadow_pass_commands(2, &payloads_for(2), &casters, &camera_commands, 3);

    let mut pipelines = PipelineSet::new();
    let layout = PipelineLayout {
        bind_groups: vec![render_graph::layout::BindGroupDescriptor {
            index: 0,
            bindings: vec![],
        }],
        vertex_buffer_descriptors: vec![VertexBufferLayout {
            name: "position".to_string(),
            stride: 12,
        }],
        push_constant_ranges: vec![],
    };
    assert!(pipelines.insert(7, layout));
    let compiled = compile_pass(&stream, &pipelines).unwrap();

    let pipeline_calls = compiled
        .iter()
        .filter(|c| matches!(c, RenderCommand::SetPipeline { .. }))
        .count();
    assert_eq!(pipeline_calls, 1);
    let draws = compiled
        .iter()
        .filter(|c| matches!(c, RenderCommand::Draw { .. }))
        .count();
    assert_eq!(draws, 36);
    // every face's push constants pass through: one per draw
    let pushes = compiled
        .iter()
        .filter(|c| matches!(c, RenderCommand::SetPushConstants { .. }))
        .count();
    assert_eq!(pushes, 36);
}

#[test]
fn emission_order_is_lights_then_faces_then_casters() {
    let casters = vec![caster_stream(7)];
    let camera_commands: Vec<(u64, Vec<RenderCommand>)> = vec![];
    let stream = emit_shadow_pass_commands(2, &payloads_for(2), &casters, &camera_commands, 3);
    // per caster block: SetPipeline, SetPushConstants, SetVertexBuffer, Draw
    assert_eq!(stream.len(), 2 * 6 * 4);
    // the first push constants carry face payload 0, the last face payload 11
    let payloads: Vec<u8> = stream
        .iter()
        .filter_map(|c| match c {
            RenderCommand::SetPushConstants { data, .. } => Some(data[0]),
            _ => None,
        })
        .collect();
    assert_eq!(payloads, (0u8..12).collect::<Vec<u8>>());
}

#[test]
fn shadow_pass_node_records_and_hands_out_commands() {
    let mut node = ShadowPassNode::new();
    node.add_camera("camera_3d".to_string());
    let slots = node.input();
    assert_eq!(slots.len(), 1);
    assert_eq!(slots[0].name, "shadow_texture");
    let casters = vec![caster_stream(7)];
    let camera_commands: Vec<(u64, Vec<RenderCommand>)> = vec![];
    node.prepare(1, &payloads_for(1), &casters, &camera_commands);
    let commands = node.take_commands();
    assert_eq!(commands.len(), 6 * 4);
    assert_eq!(node.take_commands().len(), 0);
}

#[test]
fn shadows_node_keeps_only_geometry_commands() {
    let draws = vec![vec![
        RenderCommand::SetPipeline { pipeline: 1 },
        RenderCommand::SetBindGroup {
            index: 0,
            bind_group: 2,
            dynamic_uniform_indices: vec![],
        },
        RenderCommand::SetVertexBuffer { slot: 0, buffer: 3, offset: 0 },
        RenderCommand::SetIndexBuffer {
            buffer: 4,
            offset: 0,
            index_format: render_graph::command::IndexFormat::Uint32,
        },
        RenderCommand::SetPushConstants { stages: 3, offset: 0, data: vec![1] },
        RenderCommand::DrawIndexed {
            indices_start: 0,
            indices_end: 6,
            base_vertex: 0,
            instances_start: 0,
            instances_end: 1,
        },
    ]];
    let kept = collect_shadow_commands(&draws);
    assert_eq!(kept.len(), 3);
    assert!(matches!(kept[0], RenderCommand::SetVertexBuffer { .. }));
    assert!(matches!(kept[1], RenderCommand::SetIndexBuffer { .. }));
    assert!(matches!(kept[2], RenderCommand::DrawIndexed { .. }));
}

#[test]
fn shadows_node_prepare_replaces_previous_commands() {
    let mut node = ShadowsNode::new();
    assert_eq!(node.input().len(), 1);
    assert_eq!(node.output().len(), 0);
    let draws = vec![vec![RenderCommand::Draw {
        vertices_start: 0,
        vertices_end: 3,
        instances_start: 0,
        instances_end: 1,
    }]];
    node.prepare(&draws);
}
