//! Logical draw commands, as a pass node records them for one drawable.
//!
//! A command stream is an ordered, append-only sequence; the draw-state
//! compiler later turns it into the minimal sequence of GPU calls. GPU
//! objects (pipelines, bind groups, buffers) appear here as stable opaque
//! handles.

use vstd::prelude::*;

verus! {

/// Layout of the data inside an index buffer.
#[derive(Clone, Copy, PartialEq, Eq, Structural, Debug)]
pub enum IndexFormat {
    Uint16,
    Uint32,
}

/// One logical draw command, recorded per drawable and consumed in order.
#[derive(Debug)]
pub enum RenderCommand {
    SetPipeline {
        pipeline: u64,
    },
    SetBindGroup {
        index: u32,
        bind_group: u64,
        dynamic_uniform_indices: Vec<u32>,
    },
    SetVertexBuffer {
        slot: u32,
        buffer: u64,
        offset: u64,
    },
    SetIndexBuffer {
        buffer: u64,
        offset: u64,
        index_format: IndexFormat,
    },
    SetPushConstants {
        stages: u32,
        offset: u32,
        data: Vec<u8>,
    },
    Draw {
        vertices_start: u32,
        vertices_end: u32,
        instances_start: u32,
        instances_end: u32,
    },
    DrawIndexed {
        indices_start: u32,
        indices_end: u32,
        base_vertex: i32,
        instances_start: u32,
        instances_end: u32,
    },
}

/// Mathematical model of a command: variable-length payloads become `Seq`s.
pub enum Command {
    SetPipeline {
        pipeline: u64,
    },
    SetBindGroup {
        index: u32,
        bind_group: u64,
        dynamic_uniform_indices: Seq<u32>,
    },
    SetVertexBuffer {
        slot: u32,
        buffer: u64,
        offset: u64,
    },
    SetIndexBuffer {
        buffer: u64,
        offset: u64,
        index_format: IndexFormat,
    },
    SetPushConstants {
        stages: u32,
        offset: u32,
        data: Seq<u8>,
    },
    Draw {
        vertices_start: u32,
        vertices_end: u32,
        instances_start: u32,
        instances_end: u32,
    },
    DrawIndexed {
        indices_start: u32,
        indices_end: u32,
        base_vertex: i32,
        instances_start: u32,
        instances_end: u32,
    },
}

impl View for RenderCommand {
    type V = Command;

    open spec fn view(&self) -> Command {
        match self {
            RenderCommand::SetPipeline { pipeline } => Command::SetPipeline {
                pipeline: *pipeline,
            },
            RenderCommand::SetBindGroup { index, bind_group, dynamic_uniform_indices } => {
                Command::SetBindGroup {
                    index: *index,
                    bind_group: *bind_group,
                    dynamic_uniform_indices: dynamic_uniform_indices@,
                }
            },
            RenderCommand::SetVertexBuffer { slot, buffer, offset } => {
                Command::SetVertexBuffer { slot: *slot, buffer: *buffer, offset: *offset }
            },
            RenderCommand::SetIndexBuffer { buffer, offset, index_format } => {
                Command::SetIndexBuffer {
                    buffer: *buffer,
                    offset: *offset,
                    index_format: *index_format,
                }
            },
            RenderCommand::SetPushConstants { stages, offset, data } => {
                Command::SetPushConstants { stages: *stages, offset: *offset, data: data@ }
            },
            RenderCommand::Draw { vertices_start, vertices_end, instances_start, instances_end } => {
                Command::Draw {
                    vertices_start: *vertices_start,
                    vertices_end: *vertices_end,
                    instances_start: *instances_start,
                    instances_end: *instances_end,
                }
            },
            RenderCommand::DrawIndexed {
                indices_start,
                indices_end,
                base_vertex,
                instances_start,
                instances_end,
            } => Command::DrawIndexed {
                indices_start: *indices_start,
                indices_end: *indices_end,
                base_vertex: *base_vertex,
                instances_start: *instances_start,
                instances_end: *instances_end,
            },
        }
    }
}

impl Clone for RenderCommand {
    /// Clones keep the mathematical value of the command.
    fn clone(&self) -> (r: Self)
        ensures
            r@ == self@,
    {
        match self {
            RenderCommand::SetPipeline { pipeline } => RenderCommand::SetPipeline {
                pipeline: *pipeline,
            },
            RenderCommand::SetBindGroup { index, bind_group, dynamic_uniform_indices } => {
                let offsets = clone_u32_vec(dynamic_uniform_indices);
                RenderCommand::SetBindGroup {
                    index: *index,
                    bind_group: *bind_group,
                    dynamic_uniform_indices: offsets,
                }
            },
            RenderCommand::SetVertexBuffer { slot, buffer, offset } => {
                RenderCommand::SetVertexBuffer { slot: *slot, buffer: *buffer, offset: *offset }
            },
            RenderCommand::SetIndexBuffer { buffer, offset, index_format } => {
                RenderCommand::SetIndexBuffer {
                    buffer: *buffer,
                    offset: *offset,
                    index_format: *index_format,
                }
            },
            RenderCommand::SetPushConstants { stages, offset, data } => {
                let bytes = clone_u8_vec(data);
                RenderCommand::SetPushConstants { stages: *stages, offset: *offset, data: bytes }
            },
            RenderCommand::Draw { vertices_start, vertices_end, instances_start, instances_end } => {
                RenderCommand::Draw {
                    vertices_start: *vertices_start,
                    vertices_end: *vertices_end,
                    instances_start: *instances_start,
                    instances_end: *instances_end,
                }
            },
            RenderCommand::DrawIndexed {
                indices_start,
                indices_end,
                base_vertex,
                instances_start,
                instances_end,
            } => RenderCommand::DrawIndexed {
                indices_start: *indices_start,
                indices_end: *indices_end,
                base_vertex: *base_vertex,
                instances_start: *instances_start,
                instances_end: *instances_end,
            },
        }
    }
}

/// Element-wise copy of a `u32` vector that keeps its view.
pub(crate) fn clone_u32_vec(v: &Vec<u32>) -> (r: Vec<u32>)
    ensures
        r@ == v@,
{
    let mut r: Vec<u32> = Vec::new();
    let mut i: usize = 0;
    while i < v.len()
        invariant
            i <= v.len(),
            r@ == v@.take(i as int),
        decreases v.len() - i,
    {
        r.push(v[i]);
        proof {
            assert(v@.take(i + 1 as int) =~= v@.take(i as int).push(v@[i as int]));
        }
        i = i + 1;
    }
    proof {
        assert(v@.take(v@.len() as int) =~= v@);
    }
    r
}

/// Element-wise copy of a byte vector that keeps its view.
pub(crate) fn clone_u8_vec(v: &Vec<u8>) -> (r: Vec<u8>)
    ensures
        r@ == v@,
{
    let mut r: Vec<u8> = Vec::new();
    let mut i: usize = 0;
    while i < v.len()
        invariant
            i <= v.len(),
            r@ == v@.take(i as int),
        decreases v.len() - i,
    {
        r.push(v[i]);
        proof {
            assert(v@.take(i + 1 as int) =~= v@.take(i as int).push(v@[i as int]));
        }
        i = i + 1;
    }
    proof {
        assert(v@.take(v@.len() as int) =~= v@);
    }
    r
}

/// The views of the commands in a vector, in order.
pub open spec fn views_of_commands(v: Seq<RenderCommand>) -> Seq<Command> {
    v.map_values(|c: RenderCommand| c@)
}

} // verus!
