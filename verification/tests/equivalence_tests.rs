//! Observational equivalence of the compiled stream: a small reference
//! interpreter runs a command stream against the abstract GPU state and
//! records what an observer sees — every draw with the full binding
//! snapshot it executes under, and every push-constant write. The
//! compiled (deduplicated) stream must drive the GPU through exactly the
//! same observations as the raw stream.

use render_graph::command::{IndexFormat, RenderCommand};
use render_graph::compiler::{compile_pass, PipelineSet};
use render_graph::layout::{BindGroupDescriptor, PipelineLayout, VertexBufferLayout};

#[derive(Clone, PartialEq, Eq, Debug, Default)]
struct GpuSnapshot {
    pipeline: Option<u64>,
    bound: Vec<(u32, u64, Vec<u32>)>,
    vertex_buffers: Vec<Option<(u64, u64)>>,
    index_buffer: Option<(u64, u64, IndexFormat)>,
}

#[derive(Clone, PartialEq, Eq, Debug)]
enum Observation {
    PushConstants(u32, u32, Vec<u8>),
    Draw(u32, u32, u32, u32, GpuSnapshot),
    DrawIndexed(u32, u32, i32, u32, u32, GpuSnapshot),
}

struct Registry {
    entries: Vec<(u64, Vec<u32>, usize)>,
}

impl Registry {
    fn lookup(&self, id: u64) -> Option<(&Vec<u32>, usize)> {
        self.entries
            .iter()
            .find(|e| e.0 == id)
            .map(|e| (&e.1, e.2))
    }
}

fn observe(commands: &[RenderCommand], registry: &Registry) -> Vec<Observation> {
    let mut state = GpuSnapshot::default();
    let mut observations = Vec::new();
    for command in commands {
        match command {
            RenderCommand::SetPipeline { pipeline } => {
                if state.pipeline != Some(*pipeline) {
                    let (_, vbuf_count) = registry.lookup(*pipeline).expect("known pipeline");
                    state.pipeline = Some(*pipeline);
                    state.bound.clear();
                    state.vertex_buffers = vec![None; vbuf_count];
                    state.index_buffer = None;
                }
            }
            RenderCommand::SetBindGroup { index, bind_group, dynamic_uniform_indices } => {
                state.bound.retain(|e| e.0 != *index);
                state
                    .bound
                    .push((*index, *bind_group, dynamic_uniform_indices.clone()));
                state.bound.sort_by_key(|e| e.0);
            }
            RenderCommand::SetVertexBuffer { slot, buffer, offset } => {
                state.vertex_buffers[*slot as usize] = Some((*buffer, *offset));
            }
            RenderCommand::SetIndexBuffer { buffer, offset, index_format } => {
                state.index_buffer = Some((*buffer, *offset, *index_format));
            }
            RenderCommand::SetPushConstants { stages, offset, data } => {
                observations.push(Observation::PushConstants(*stages, *offset, data.clone()));
            }
            RenderCommand::Draw { vertices_start, vertices_end, instances_start, instances_end } => {
                observations.push(Observation::Draw(
                    *vertices_start,
                    *vertices_end,
                    *instances_start,
                    *instances_end,
                    state.clone(),
                ));
            }
            RenderCommand::DrawIndexed {
                indices_start,
                indices_end,
                base_vertex,
                instances_start,
                instances_end,
            } => {
                observations.push(Observation::DrawIndexed(
                    *indices_start,
                    *indices_end,
                    *base_vertex,
                    *instances_start,
                    *instances_end,
                    state.clone(),
                ));
            }
        }
    }
    observations
}

fn pipelines_and_registry() -> (PipelineSet, Registry) {
    let mut pipelines = PipelineSet::new();
    let layout_a = PipelineLayout {
        bind_groups: vec![
            BindGroupDescriptor { index: 0, bindings: vec![] },
            BindGroupDescriptor { index: 1, bindings: vec![] },
        ],
        vertex_buffer_descriptors: vec![
            VertexBufferLayout { name: "position".to_string(), stride: 12 },
            VertexBufferLayout { name: "normal".to_string(), stride: 12 },
        ],
        push_constant_ranges: vec![],
    };
    let layout_b = PipelineLayout {
        bind_groups: vec![BindGroupDescriptor { index: 0, bindings: vec![] }],
        vertex_buffer_descriptors: vec![VertexBufferLayout {
            name: "position".to_string(),
            stride: 12,
        }],
        push_constant_ranges: vec![],
    };
    assert!(pipelines.insert(1, layout_a));
    assert!(pipelines.insert(2, layout_b));
    let registry = Registry {
        entries: vec![(1, vec![0, 1], 2), (2, vec![0], 1)],
    };
    (pipelines, registry)
}

fn bind(index: u32, group: u64) -> RenderCommand {
    RenderCommand::SetBindGroup {
        index,
        bind_group: group,
        dynamic_uniform_indices: vec![],
    }
}

fn vbuf(slot: u32, buffer: u64, offset: u64) -> RenderCommand {
    RenderCommand::SetVertexBuffer { slot, buffer, offset }
}

fn draw() -> RenderCommand {
    RenderCommand::Draw {
        vertices_start: 0,
        vertices_end: 3,
        instances_start: 0,
        instances_end: 1,
    }
}

fn assert_observationally_equivalent(commands: Vec<RenderCommand>) {
    let (pipelines, registry) = pipelines_and_registry();
    let compiled = compile_pass(&commands, &pipelines).expect("stream compiles");
    assert!(compiled.len() <= commands.len());
    assert_eq!(observe(&commands, &registry), observe(&compiled, &registry));
}

#[test]
fn redundant_rebinds_are_observationally_equivalent() {
    assert_observationally_equivalent(vec![
        RenderCommand::SetPipeline { pipeline: 1 },
        bind(0, 10),
        bind(0, 10),
        bind(1, 11),
        vbuf(0, 20, 0),
        vbuf(0, 20, 0),
        vbuf(1, 21, 8),
        draw(),
        RenderCommand::SetPipeline { pipeline: 1 },
        bind(0, 10),
        bind(1, 11),
        vbuf(0, 20, 0),
        vbuf(1, 21, 8),
        draw(),
    ]);
}

#[test]
fn pipeline_switches_are_observationally_equivalent() {
    assert_observationally_equivalent(vec![
        RenderCommand::SetPipeline { pipeline: 1 },
        bind(0, 10),
        bind(1, 11),
        vbuf(0, 20, 0),
        vbuf(1, 21, 0),
        draw(),
        RenderCommand::SetPipeline { pipeline: 2 },
        bind(0, 12),
        vbuf(0, 22, 0),
        draw(),
        RenderCommand::SetPipeline { pipeline: 2 },
        bind(0, 12),
        vbuf(0, 22, 0),
        RenderCommand::SetIndexBuffer { buffer: 30, offset: 0, index_format: IndexFormat::Uint32 },
        RenderCommand::SetIndexBuffer { buffer: 30, offset: 0, index_format: IndexFormat::Uint32 },
        RenderCommand::DrawIndexed {
            indices_start: 0,
            indices_end: 6,
            base_vertex: 0,
            instances_start: 0,
            instances_end: 1,
        },
    ]);
}

#[test]
fn push_constants_and_rebinding_other_groups_are_observationally_equivalent() {
    assert_observationally_equivalent(vec![
        RenderCommand::SetPipeline { pipeline: 2 },
        bind(0, 10),
        vbuf(0, 20, 0),
        RenderCommand::SetPushConstants { stages: 3, offset: 0, data: vec![1, 2] },
        draw(),
        RenderCommand::SetPushConstants { stages: 3, offset: 0, data: vec![3, 4] },
        bind(0, 13),
        draw(),
        bind(0, 10),
        vbuf(0, 23, 16),
        draw(),
    ]);
}
