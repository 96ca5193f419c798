use render_graph::command::{IndexFormat, RenderCommand};
use render_graph::compiler::{compile_pass, PipelineSet};
use render_graph::draw_state::InvalidDrawState;
use render_graph::layout::{BindGroupDescriptor, BindType, BindingDescriptor, PipelineLayout,
    VertexBufferLayout};

fn uniform_binding(index: u32, name: &str) -> BindingDescriptor {
    BindingDescriptor {
        name: name.to_string(),
        index,
        bind_type: BindType::Uniform,
        shader_stage: 1,
    }
}

fn layout_with(groups: Vec<u32>, vertex_buffers: usize) -> PipelineLayout {
    let bind_groups = groups
        .into_iter()
        .map(|g| BindGroupDescriptor {
            index: g,
            bindings: vec![uniform_binding(0, "binding")],
        })
        .collect();
    let mut vbufs = Vec::new();
    let mut i = 0;
    while i < vertex_buffers {
        vbufs.push(VertexBufferLayout {
            name: format!("vb{}", i),
            stride: 16,
        });
        i += 1;
    }
    PipelineLayout {
        bind_groups,
        vertex_buffer_descriptors: vbufs,
        push_constant_ranges: vec![],
    }
}

fn count_matching(commands: &[RenderCommand], pred: fn(&RenderCommand) -> bool) -> usize {
    commands.iter().filter(|c| pred(c)).count()
}

fn is_set_pipeline(c: &RenderCommand) -> bool {
    matches!(c, RenderCommand::SetPipeline { .. })
}

fn is_set_vertex_buffer(c: &RenderCommand) -> bool {
    matches!(c, RenderCommand::SetVertexBuffer { .. })
}

fn draw() -> RenderCommand {
    RenderCommand::Draw {
        vertices_start: 0,
        vertices_end: 3,
        instances_start: 0,
        instances_end: 1,
    }
}

#[test]
fn pipeline_change_clears_bind_groups_so_draw_fails() {
    // The pipeline set after a bound group invalidates the binding: the
    // draw is refused naming the missing group.
    let mut pipelines = PipelineSet::new();
    assert!(pipelines.insert(1, layout_with(vec![0], 0)));
    assert!(pipelines.insert(2, layout_with(vec![0], 0)));
    let commands = vec![
        RenderCommand::SetPipeline { pipeline: 1 },
        RenderCommand::SetBindGroup {
            index: 0,
            bind_group: 77,
            dynamic_uniform_indices: vec![],
        },
        RenderCommand::SetPipeline { pipeline: 2 },
        draw(),
    ];
    let result = compile_pass(&commands, &pipelines).unwrap_err();
    assert_eq!(result, InvalidDrawState::MissingBindGroup { index: 0 });
}

#[test]
fn repeated_vertex_buffer_binding_emits_one_call() {
    let mut pipelines = PipelineSet::new();
    assert!(pipelines.insert(1, layout_with(vec![], 1)));
    let commands = vec![
        RenderCommand::SetPipeline { pipeline: 1 },
        RenderCommand::SetVertexBuffer { slot: 0, buffer: 9, offset: 0 },
        RenderCommand::SetVertexBuffer { slot: 0, buffer: 9, offset: 0 },
        draw(),
    ];
    let out = compile_pass(&commands, &pipelines).unwrap();
    assert_eq!(count_matching(&out, is_set_vertex_buffer), 1);
    assert_eq!(out.len(), 3);
}

#[test]
fn changed_vertex_buffer_offset_is_reemitted() {
    let mut pipelines = PipelineSet::new();
    assert!(pipelines.insert(1, layout_with(vec![], 1)));
    let commands = vec![
        RenderCommand::SetPipeline { pipeline: 1 },
        RenderCommand::SetVertexBuffer { slot: 0, buffer: 9, offset: 0 },
        RenderCommand::SetVertexBuffer { slot: 0, buffer: 9, offset: 64 },
        draw(),
    ];
    let out = compile_pass(&commands, &pipelines).unwrap();
    assert_eq!(count_matching(&out, is_set_vertex_buffer), 2);
}

#[test]
fn repeated_pipeline_is_emitted_once() {
    let mut pipelines = PipelineSet::new();
    assert!(pipelines.insert(1, layout_with(vec![], 0)));
    let commands = vec![
        RenderCommand::SetPipeline { pipeline: 1 },
        draw(),
        RenderCommand::SetPipeline { pipeline: 1 },
        draw(),
    ];
    let out = compile_pass(&commands, &pipelines).unwrap();
    assert_eq!(count_matching(&out, is_set_pipeline), 1);
    assert_eq!(out.len(), 3);
}

#[test]
fn bind_group_with_dynamic_offsets_is_always_reemitted() {
    let mut pipelines = PipelineSet::new();
    assert!(pipelines.insert(1, layout_with(vec![0], 0)));
    let commands = vec![
        RenderCommand::SetPipeline { pipeline: 1 },
        RenderCommand::SetBindGroup {
            index: 0,
            bind_group: 4,
            dynamic_uniform_indices: vec![256],
        },
        RenderCommand::SetBindGroup {
            index: 0,
            bind_group: 4,
            dynamic_uniform_indices: vec![512],
        },
        draw(),
    ];
    let out = compile_pass(&commands, &pipelines).unwrap();
    let binds = count_matching(&out, |c| matches!(c, RenderCommand::SetBindGroup { .. }));
    assert_eq!(binds, 2);
}

#[test]
fn bind_group_without_offsets_is_deduplicated() {
    let mut pipelines = PipelineSet::new();
    assert!(pipelines.insert(1, layout_with(vec![0], 0)));
    let commands = vec![
        RenderCommand::SetPipeline { pipeline: 1 },
        RenderCommand::SetBindGroup {
            index: 0,
            bind_group: 4,
            dynamic_uniform_indices: vec![],
        },
        RenderCommand::SetBindGroup {
            index: 0,
            bind_group: 4,
            dynamic_uniform_indices: vec![],
        },
        draw(),
    ];
    let out = compile_pass(&commands, &pipelines).unwrap();
    let binds = count_matching(&out, |c| matches!(c, RenderCommand::SetBindGroup { .. }));
    assert_eq!(binds, 1);
}

#[test]
fn push_constants_are_never_deduplicated() {
    let pipelines = PipelineSet::new();
    let commands = vec![
        RenderCommand::SetPushConstants { stages: 3, offset: 0, data: vec![1, 2, 3] },
        RenderCommand::SetPushConstants { stages: 3, offset: 0, data: vec![1, 2, 3] },
    ];
    let out = compile_pass(&commands, &pipelines).unwrap();
    assert_eq!(out.len(), 2);
}

#[test]
fn draw_without_pipeline_is_refused() {
    let pipelines = PipelineSet::new();
    let commands = vec![draw()];
    assert_eq!(
        compile_pass(&commands, &pipelines).unwrap_err(),
        InvalidDrawState::MissingPipeline
    );
}

#[test]
fn unknown_pipeline_is_refused() {
    let pipelines = PipelineSet::new();
    let commands = vec![RenderCommand::SetPipeline { pipeline: 42 }];
    assert_eq!(
        compile_pass(&commands, &pipelines).unwrap_err(),
        InvalidDrawState::UnknownPipeline { pipeline: 42 }
    );
}

#[test]
fn indexed_draw_without_index_buffer_is_refused() {
    let mut pipelines = PipelineSet::new();
    assert!(pipelines.insert(1, layout_with(vec![], 0)));
    let commands = vec![
        RenderCommand::SetPipeline { pipeline: 1 },
        RenderCommand::DrawIndexed {
            indices_start: 0,
            indices_end: 3,
            base_vertex: 0,
            instances_start: 0,
            instances_end: 1,
        },
    ];
    assert_eq!(
        compile_pass(&commands, &pipelines).unwrap_err(),
        InvalidDrawState::MissingIndexBuffer
    );
}

#[test]
fn draw_with_unpopulated_vertex_slot_is_refused() {
    let mut pipelines = PipelineSet::new();
    assert!(pipelines.insert(1, layout_with(vec![], 2)));
    let commands = vec![
        RenderCommand::SetPipeline { pipeline: 1 },
        RenderCommand::SetVertexBuffer { slot: 0, buffer: 9, offset: 0 },
        draw(),
    ];
    assert_eq!(
        compile_pass(&commands, &pipelines).unwrap_err(),
        InvalidDrawState::MissingVertexBuffer { slot: 1 }
    );
}

#[test]
fn vertex_slot_beyond_layout_is_refused() {
    let mut pipelines = PipelineSet::new();
    assert!(pipelines.insert(1, layout_with(vec![], 1)));
    let commands = vec![
        RenderCommand::SetPipeline { pipeline: 1 },
        RenderCommand::SetVertexBuffer { slot: 5, buffer: 9, offset: 0 },
    ];
    assert_eq!(
        compile_pass(&commands, &pipelines).unwrap_err(),
        InvalidDrawState::VertexSlotOutOfRange { slot: 5 }
    );
}

#[test]
fn bind_group_at_undeclared_index_is_refused() {
    let mut pipelines = PipelineSet::new();
    assert!(pipelines.insert(1, layout_with(vec![0], 0)));
    let commands = vec![
        RenderCommand::SetPipeline { pipeline: 1 },
        RenderCommand::SetBindGroup {
            index: 3,
            bind_group: 4,
            dynamic_uniform_indices: vec![],
        },
    ];
    assert_eq!(
        compile_pass(&commands, &pipelines).unwrap_err(),
        InvalidDrawState::UndeclaredBindGroup { index: 3 }
    );
}

#[test]
fn index_buffer_binding_is_deduplicated_by_value() {
    let mut pipelines = PipelineSet::new();
    assert!(pipelines.insert(1, layout_with(vec![], 0)));
    let commands = vec![
        RenderCommand::SetPipeline { pipeline: 1 },
        RenderCommand::SetIndexBuffer { buffer: 5, offset: 0, index_format: IndexFormat::Uint16 },
        RenderCommand::SetIndexBuffer { buffer: 5, offset: 0, index_format: IndexFormat::Uint16 },
        RenderCommand::SetIndexBuffer { buffer: 5, offset: 0, index_format: IndexFormat::Uint32 },
    ];
    let out = compile_pass(&commands, &pipelines).unwrap();
    let binds = count_matching(&out, |c| matches!(c, RenderCommand::SetIndexBuffer { .. }));
    assert_eq!(binds, 2);
}
