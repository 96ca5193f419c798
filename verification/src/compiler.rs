//! The draw-state compiler: consumes an ordered command sequence and emits
//! the minimal stream of GPU calls, eliding state changes that repeat the
//! current snapshot, and refusing draws whose required bindings are absent.
//!
//! The module also defines the observable semantics of a command stream: a
//! small GPU state machine whose events are the draws (each with the full
//! binding snapshot it sees) and the push-constant writes. The compiled
//! stream is observationally equivalent to the raw one.

use vstd::prelude::*;
use crate::command::{Command, RenderCommand, views_of_commands};
use crate::draw_state::{spec_first_unset_slot, DrawState, InvalidDrawState};
use crate::layout::PipelineLayout;

verus! {

/// Registry of the pipelines a pass may set, keyed by handle.
pub struct PipelineSet {
    entries: Vec<(u64, PipelineLayout)>,
}

impl PipelineSet {
    /// Whether a pipeline with handle `id` is registered.
    pub closed spec fn contains_pipeline(&self, id: u64) -> bool {
        exists|i: int| 0 <= i < self.entries@.len() && self.entries@[i].0 == id
    }

    /// The bind group indices declared by the layout of pipeline `id`, in
    /// declaration order. Meaningful only when the pipeline is registered.
    pub closed spec fn spec_groups(&self, id: u64) -> Seq<u32> {
        self.entries@[choose|i: int|
            0 <= i < self.entries@.len() && self.entries@[i].0 == id].1.group_order()
    }

    /// The number of vertex buffer slots declared by the layout of pipeline
    /// `id`. Meaningful only when the pipeline is registered.
    pub closed spec fn spec_vbuf_count(&self, id: u64) -> nat {
        self.entries@[choose|i: int|
            0 <= i < self.entries@.len() && self.entries@[i].0 == id].1
            .vertex_buffer_descriptors@.len()
    }

    /// Handles are unique and every registered layout is well-formed.
    pub closed spec fn wf(&self) -> bool {
        &&& forall|i: int, j: int|
            0 <= i < j < self.entries@.len() ==> self.entries@[i].0 != self.entries@[j].0
        &&& forall|i: int|
            0 <= i < self.entries@.len() ==> (#[trigger] self.entries@[i].1)
                .unique_group_indices()
        &&& forall|i: int|
            0 <= i < self.entries@.len()
                ==> (#[trigger] self.entries@[i].1).vertex_buffer_descriptors@.len() <= u32::MAX
    }

    /// An empty registry.
    pub fn new() -> (r: Self)
        ensures
            r.wf(),
            forall|id: u64| !r.contains_pipeline(id),
    {
        PipelineSet { entries: Vec::new() }
    }

    /// Registers `layout` under `id`. Returns `false`, changing nothing,
    /// when the handle is already taken.
    pub fn insert(&mut self, id: u64, layout: PipelineLayout) -> (r: bool)
        requires
            old(self).wf(),
            layout.unique_group_indices(),
            layout.vertex_buffer_descriptors@.len() <= u32::MAX,
        ensures
            final(self).wf(),
            r == !old(self).contains_pipeline(id),
            forall|p: u64|
                final(self).contains_pipeline(p) == (old(self).contains_pipeline(p) || (r && p
                    == id)),
            r ==> final(self).spec_groups(id) == layout.group_order(),
            r ==> final(self).spec_vbuf_count(id) == layout.vertex_buffer_descriptors@.len(),
            forall|p: u64|
                p != id && old(self).contains_pipeline(p) ==> final(self).spec_groups(p) == old(
                    self,
                ).spec_groups(p) && final(self).spec_vbuf_count(p) == old(self).spec_vbuf_count(
                    p,
                ),
            !r ==> *final(self) == *old(self),
    {
        let n = self.entries.len();
        let mut i: usize = 0;
        while i < n
            invariant
                *self == *old(self),
                old(self).wf(),
                n == self.entries@.len(),
                i <= n,
                forall|j: int| 0 <= j < i ==> self.entries@[j].0 != id,
            decreases n - i,
        {
            if self.entries[i].0 == id {
                proof {
                    assert(self.contains_pipeline(id));
                }
                return false;
            }
            i = i + 1;
        }
        proof {
            if self.contains_pipeline(id) {
                let w = choose|j: int|
                    0 <= j < self.entries@.len() && self.entries@[j].0 == id;
                assert(false);
            }
        }
        let entry = (id, layout);
        self.entries.push(entry);
        proof {
            let s_old = old(self).entries@;
            let s_new = self.entries@;
            let m = s_old.len() as int;
            assert(s_new == s_old.push((id, layout)));
            assert(s_new[m].0 == id);
            assert(self.contains_pipeline(id));
            assert(self.spec_groups(id) == layout.group_order() && self.spec_vbuf_count(id)
                == layout.vertex_buffer_descriptors@.len()) by {
                let w = choose|j: int| 0 <= j < s_new.len() && s_new[j].0 == id;
                assert(w == m);
            }
            assert forall|p: u64| self.contains_pipeline(p) == (old(self).contains_pipeline(p)
                || p == id) by {
                if old(self).contains_pipeline(p) {
                    let w = choose|j: int| 0 <= j < s_old.len() && s_old[j].0 == p;
                    assert(s_new[w].0 == p);
                }
                if self.contains_pipeline(p) && p != id {
                    let w = choose|j: int| 0 <= j < s_new.len() && s_new[j].0 == p;
                    assert(w < m);
                    assert(s_old[w].0 == p);
                }
            }
            assert forall|p: u64| p != id && old(self).contains_pipeline(p) implies
                self.spec_groups(p) == old(self).spec_groups(p) && self.spec_vbuf_count(p) == old(
                self,
            ).spec_vbuf_count(p) by {
                let w = choose|j: int| 0 <= j < s_old.len() && s_old[j].0 == p;
                let w2 = choose|j: int| 0 <= j < s_new.len() && s_new[j].0 == p;
                assert(s_new[w].0 == p);
                assert(w2 < m);
                assert(s_old[w2].0 == p);
                assert(w == w2);
            }
        }
        true
    }

    /// The layout registered under `id`, if any.
    pub fn get(&self, id: u64) -> (r: Option<&PipelineLayout>)
        requires
            self.wf(),
        ensures
            r.is_some() == self.contains_pipeline(id),
            match r {
                Some(layout) => {
                    &&& layout.group_order() == self.spec_groups(id)
                    &&& layout.vertex_buffer_descriptors@.len() == self.spec_vbuf_count(id)
                    &&& layout.unique_group_indices()
                    &&& self.spec_vbuf_count(id) <= u32::MAX
                },
                None => true,
            },
    {
        let n = self.entries.len();
        let mut i: usize = 0;
        while i < n
            invariant
                self.wf(),
                n == self.entries@.len(),
                i <= n,
                forall|j: int| 0 <= j < i ==> self.entries@[j].0 != id,
            decreases n - i,
        {
            if self.entries[i].0 == id {
                proof {
                    let w = choose|j: int|
                        0 <= j < self.entries@.len() && self.entries@[j].0 == id;
                    assert(w == i as int);
                }
                return Some(&self.entries[i].1);
            }
            i = i + 1;
        }
        proof {
            if self.contains_pipeline(id) {
                let w = choose|j: int|
                    0 <= j < self.entries@.len() && self.entries@[j].0 == id;
                assert(false);
            }
        }
        None
    }
}

/// The abstract GPU state a command stream drives: what a draw issued now
/// would see.
#[verifier::ext_equal]
pub struct GpuState {
    /// The pipeline set by the last effective `SetPipeline`.
    pub pipeline: Option<u64>,
    /// The bind group indices the current pipeline's layout declares.
    pub declared: Seq<u32>,
    /// The groups bound since the pipeline was set: index to (group handle,
    /// dynamic offsets).
    pub bound: Map<u32, (u64, Seq<u32>)>,
    /// The vertex buffer bound at each declared slot.
    pub vertex_buffers: Seq<Option<(u64, u64)>>,
    /// The bound index buffer.
    pub index_buffer: Option<(u64, u64, crate::command::IndexFormat)>,
}

/// The state a pass starts from.
pub open spec fn init_gpu_state() -> GpuState {
    GpuState {
        pipeline: None,
        declared: Seq::empty(),
        bound: Map::empty(),
        vertex_buffers: Seq::empty(),
        index_buffer: None,
    }
}

/// How one command changes the GPU state. Setting the pipeline already set
/// is a no-op; setting a different one resets every binding, because the
/// new layout invalidates them. Draws and push constants leave the state
/// unchanged.
pub open spec fn gpu_step(reg: &PipelineSet, s: GpuState, c: Command) -> GpuState {
    match c {
        Command::SetPipeline { pipeline } => {
            if s.pipeline == Some(pipeline) {
                s
            } else {
                GpuState {
                    pipeline: Some(pipeline),
                    declared: reg.spec_groups(pipeline),
                    bound: Map::empty(),
                    vertex_buffers: Seq::new(
                        reg.spec_vbuf_count(pipeline),
                        |i: int| None::<(u64, u64)>,
                    ),
                    index_buffer: None,
                }
            }
        },
        Command::SetBindGroup { index, bind_group, dynamic_uniform_indices } => GpuState {
            bound: s.bound.insert(index, (bind_group, dynamic_uniform_indices)),
            ..s
        },
        Command::SetVertexBuffer { slot, buffer, offset } => GpuState {
            vertex_buffers: s.vertex_buffers.update(slot as int, Some((buffer, offset))),
            ..s
        },
        Command::SetIndexBuffer { buffer, offset, index_format } => GpuState {
            index_buffer: Some((buffer, offset, index_format)),
            ..s
        },
        _ => s,
    }
}

/// The first declared-but-unbound bind group slot among `order`.
pub open spec fn gpu_first_unbound(s: GpuState, order: Seq<u32>) -> Option<u32>
    decreases order.len(),
{
    if order.len() == 0 {
        None
    } else if !s.bound.dom().contains(order[0]) {
        Some(order[0])
    } else {
        gpu_first_unbound(s, order.drop_first())
    }
}

/// Why a draw issued in state `s` would be invalid, if it would be.
pub open spec fn gpu_draw_fault(s: GpuState, indexed: bool) -> Option<InvalidDrawState> {
    if s.pipeline is None {
        Some(InvalidDrawState::MissingPipeline)
    } else {
        match gpu_first_unbound(s, s.declared) {
            Some(k) => Some(InvalidDrawState::MissingBindGroup { index: k }),
            None => match spec_first_unset_slot(s.vertex_buffers) {
                Some(i) => Some(InvalidDrawState::MissingVertexBuffer { slot: i as u32 }),
                None => if indexed && s.index_buffer is None {
                    Some(InvalidDrawState::MissingIndexBuffer)
                } else {
                    None
                },
            },
        }
    }
}

/// Why executing `c` in state `s` is a programmer error, if it is. A
/// binding command that repeats the current snapshot is never at fault: it
/// is dropped before any check, as the compiler does.
pub open spec fn gpu_fault(reg: &PipelineSet, s: GpuState, c: Command) -> Option<
    InvalidDrawState,
> {
    match c {
        Command::SetPipeline { pipeline } => {
            if s.pipeline == Some(pipeline) {
                None
            } else if !reg.contains_pipeline(pipeline) {
                Some(InvalidDrawState::UnknownPipeline { pipeline })
            } else {
                None
            }
        },
        Command::SetBindGroup { index, bind_group, dynamic_uniform_indices } => {
            if dynamic_uniform_indices.len() == 0 && s.bound.dom().contains(index)
                && s.bound[index].0 == bind_group {
                None
            } else if s.pipeline is None {
                Some(InvalidDrawState::BindGroupWithoutPipeline { index })
            } else if !s.declared.contains(index) {
                Some(InvalidDrawState::UndeclaredBindGroup { index })
            } else {
                None
            }
        },
        Command::SetVertexBuffer { slot, buffer, offset } => {
            if (slot as int) >= s.vertex_buffers.len() {
                Some(InvalidDrawState::VertexSlotOutOfRange { slot })
            } else {
                None
            }
        },
        Command::SetIndexBuffer { .. } => None,
        Command::SetPushConstants { .. } => None,
        Command::Draw { .. } => gpu_draw_fault(s, false),
        Command::DrawIndexed { .. } => gpu_draw_fault(s, true),
    }
}

/// What an observer of the GPU sees of one command: draws carry the full
/// binding snapshot they execute under; push-constant writes pass through;
/// pure state changes are silent.
pub enum GpuEvent {
    PushConstants { stages: u32, offset: u32, data: Seq<u8> },
    Draw {
        vertices_start: u32,
        vertices_end: u32,
        instances_start: u32,
        instances_end: u32,
        state: GpuState,
    },
    DrawIndexed {
        indices_start: u32,
        indices_end: u32,
        base_vertex: i32,
        instances_start: u32,
        instances_end: u32,
        state: GpuState,
    },
}

/// The event `c` produces in state `s`, if any.
pub open spec fn gpu_event(s: GpuState, c: Command) -> Option<GpuEvent> {
    match c {
        Command::SetPushConstants { stages, offset, data } => Some(
            GpuEvent::PushConstants { stages, offset, data },
        ),
        Command::Draw { vertices_start, vertices_end, instances_start, instances_end } => Some(
            GpuEvent::Draw {
                vertices_start,
                vertices_end,
                instances_start,
                instances_end,
                state: s,
            },
        ),
        Command::DrawIndexed {
            indices_start,
            indices_end,
            base_vertex,
            instances_start,
            instances_end,
        } => Some(
            GpuEvent::DrawIndexed {
                indices_start,
                indices_end,
                base_vertex,
                instances_start,
                instances_end,
                state: s,
            },
        ),
        _ => None,
    }
}

/// The GPU state after executing `cmds` from the start of a pass.
pub open spec fn gpu_state_after(reg: &PipelineSet, cmds: Seq<Command>) -> GpuState
    decreases cmds.len(),
{
    if cmds.len() == 0 {
        init_gpu_state()
    } else {
        gpu_step(reg, gpu_state_after(reg, cmds.drop_last()), cmds.last())
    }
}

/// Everything an observer of the GPU sees while `cmds` execute from the
/// start of a pass.
pub open spec fn gpu_events(reg: &PipelineSet, cmds: Seq<Command>) -> Seq<GpuEvent>
    decreases cmds.len(),
{
    if cmds.len() == 0 {
        Seq::empty()
    } else {
        gpu_events(reg, cmds.drop_last()) + match gpu_event(
            gpu_state_after(reg, cmds.drop_last()),
            cmds.last(),
        ) {
            Some(e) => seq![e],
            None => Seq::empty(),
        }
    }
}

/// The fault the command at position `i` of `cmds` raises, if any.
pub open spec fn fault_at(reg: &PipelineSet, cmds: Seq<Command>, i: int) -> Option<
    InvalidDrawState,
> {
    gpu_fault(reg, gpu_state_after(reg, cmds.take(i)), cmds[i])
}

/// No command of `cmds` raises a fault.
pub open spec fn fault_free(reg: &PipelineSet, cmds: Seq<Command>) -> bool {
    forall|i: int| 0 <= i < cmds.len() ==> fault_at(reg, cmds, i) is None
}

/// Within one stream, any two bind group commands at the same index agree
/// on whether they carry dynamic offsets. Reflection-derived streams have
/// this shape: whether a group uses dynamic offsets is decided by its
/// layout, not per command.
pub open spec fn uniform_offset_usage(cmds: Seq<Command>) -> bool {
    forall|i: int, j: int|
        0 <= i < cmds.len() && 0 <= j < cmds.len() ==> ((#[trigger] cmds[i])
            matches Command::SetBindGroup {
            index: idx_i,
            dynamic_uniform_indices: offs_i,
            ..
        } ==> ((#[trigger] cmds[j]) matches Command::SetBindGroup {
            index: idx_j,
            dynamic_uniform_indices: offs_j,
            ..
        } ==> (idx_i == idx_j ==> ((offs_i.len() == 0) == (offs_j.len() == 0)))))
}

/// Appending one command steps the state once and appends its event.
pub proof fn lemma_gpu_snoc(reg: &PipelineSet, cmds: Seq<Command>, c: Command)
    ensures
        gpu_state_after(reg, cmds.push(c)) == gpu_step(reg, gpu_state_after(reg, cmds), c),
        gpu_events(reg, cmds.push(c)) == gpu_events(reg, cmds) + (match gpu_event(
            gpu_state_after(reg, cmds),
            c,
        ) {
            Some(e) => seq![e],
            None => Seq::<GpuEvent>::empty(),
        }),
{
    assert(cmds.push(c).drop_last() =~= cmds);
    assert(cmds.push(c).last() == c);
}

/// The draw-state tracker agrees with the abstract GPU state, except that
/// it does not record dynamic offsets.
pub open spec fn tracker_matches(ds: DrawState, s: GpuState) -> bool {
    &&& ds.wf()
    &&& ds.spec_pipeline() == s.pipeline
    &&& ds.declared_order() == s.declared
    &&& forall|k: u32| ds.bg_declared(k) == s.declared.contains(k)
    &&& forall|k: u32| #[trigger] s.bound.dom().contains(k) ==> ds.bg_declared(k)
    &&& forall|k: u32|
        #[trigger] ds.bg_declared(k) ==> match ds.bg_get(k) {
            Some(g) => s.bound.dom().contains(k) && s.bound[k].0 == g,
            None => !s.bound.dom().contains(k),
        }
    &&& ds.spec_vertex_buffers() == s.vertex_buffers
    &&& ds.spec_index_buffer() == s.index_buffer
}

/// Slots that are bound for the tracker are bound for the GPU state, so
/// both find the same first unbound slot.
proof fn lemma_first_unbound_equiv(ds: DrawState, s: GpuState, order: Seq<u32>)
    requires
        forall|k: u32|
            #[trigger] order.contains(k) ==> (ds.bg_get(k) is Some == s.bound.dom().contains(
                k,
            )),
        forall|k: u32| #[trigger] order.contains(k) ==> ds.bg_declared(k),
    ensures
        ds.first_unbound_in(order) == gpu_first_unbound(s, order),
    decreases order.len(),
{
    if order.len() > 0 {
        assert(order.contains(order[0]));
        assert forall|k: u32| #[trigger] order.drop_first().contains(k) implies order.contains(
            k,
        ) by {
            let w = choose|i: int|
                0 <= i < order.drop_first().len() && order.drop_first()[i] == k;
            assert(order[w + 1] == k);
        }
        lemma_first_unbound_equiv(ds, s, order.drop_first());
    }
}

/// A tracker that matches the GPU state reports the same draw fault.
proof fn lemma_draw_fault_equiv(ds: DrawState, s: GpuState, indexed: bool)
    requires
        tracker_matches(ds, s),
    ensures
        ds.spec_draw_fault(indexed) == gpu_draw_fault(s, indexed),
{
    assert forall|k: u32| #[trigger] s.declared.contains(k) implies (ds.bg_get(k) is Some
        == s.bound.dom().contains(k)) by {
        assert(ds.bg_declared(k));
    }
    lemma_first_unbound_equiv(ds, s, s.declared);
}

/// Every bound group of `s` was bound by one of the first `upto` commands,
/// with exactly the recorded handle and offsets.
pub open spec fn bound_from_prefix(s: GpuState, cmds: Seq<Command>, upto: int) -> bool {
    forall|k: u32|
        #[trigger] s.bound.dom().contains(k) ==> exists|j: int|
            0 <= j < upto && ((#[trigger] cmds[j]) matches Command::SetBindGroup {
                index,
                bind_group,
                dynamic_uniform_indices,
            } && index == k && bind_group == s.bound[k].0 && dynamic_uniform_indices == s.bound[k].1)
}

/// Compiles one pass's logical command stream into the minimal stream of
/// GPU calls.
///
/// A binding command that repeats the current snapshot is dropped: a
/// pipeline already set, a bind group already bound at its index (unless
/// the command carries dynamic offsets, which are never compared), a
/// vertex or index buffer already bound with the same offset. Push
/// constants always pass through. A draw without a set pipeline or with
/// any declared binding unpopulated aborts the pass with the missing
/// binding named, rather than issuing an invalid GPU call.
///
/// The compiled stream is observationally equivalent to the raw one: it
/// drives the GPU through the same draws, each under the same binding
/// snapshot, and the same push-constant writes. The equivalence is
/// stated for streams whose bind group indices each use dynamic offsets
/// consistently (`uniform_offset_usage`), the shape every
/// reflection-derived stream has: since offsets are never compared, a
/// stream that binds a group with offsets and then re-binds it without
/// any could be deduplicated while stale offsets remain bound.
pub fn compile_pass(commands: &Vec<RenderCommand>, pipelines: &PipelineSet) -> (r: Result<
    Vec<RenderCommand>,
    InvalidDrawState,
>)
    requires
        pipelines.wf(),
    ensures
        match r {
            Ok(out) => {
                &&& fault_free(pipelines, views_of_commands(commands@))
                &&& out@.len() <= commands@.len()
                &&& uniform_offset_usage(views_of_commands(commands@)) ==> gpu_events(
                    pipelines,
                    views_of_commands(out@),
                ) == gpu_events(pipelines, views_of_commands(commands@)) && gpu_state_after(
                    pipelines,
                    views_of_commands(out@),
                ) == gpu_state_after(pipelines, views_of_commands(commands@))
            },
            Err(e) => exists|i: int|
                {
                    &&& 0 <= i < views_of_commands(commands@).len()
                    &&& #[trigger] fault_at(pipelines, views_of_commands(commands@), i) == Some(
                        e,
                    )
                    &&& forall|j: int|
                        0 <= j < i ==> fault_at(pipelines, views_of_commands(commands@), j)
                            is None
                },
        },
{
    let ghost vin = views_of_commands(commands@);
    let mut draw_state = DrawState::default();
    let mut out: Vec<RenderCommand> = Vec::new();
    proof {
        assert(vin.take(0) =~= Seq::<Command>::empty());
        assert(views_of_commands(out@) =~= Seq::<Command>::empty());
    }
    let n = commands.len();
    let mut i: usize = 0;
    while i < n
        invariant
            pipelines.wf(),
            n == commands@.len(),
            i <= n,
            vin == views_of_commands(commands@),
            vin.len() == n,
            tracker_matches(draw_state, gpu_state_after(pipelines, vin.take(i as int))),
            bound_from_prefix(gpu_state_after(pipelines, vin.take(i as int)), vin, i as int),
            forall|j: int| 0 <= j < i ==> fault_at(pipelines, vin, j) is None,
            out@.len() <= i,
            uniform_offset_usage(vin) ==> gpu_events(pipelines, views_of_commands(out@))
                == gpu_events(pipelines, vin.take(i as int)) && gpu_state_after(
                pipelines,
                views_of_commands(out@),
            ) == gpu_state_after(pipelines, vin.take(i as int)),
        decreases n - i,
    {
        let ghost gs = gpu_state_after(pipelines, vin.take(i as int));
        let ghost gs2 = gpu_state_after(pipelines, vin.take(i as int + 1));
        let ghost vout_pre = views_of_commands(out@);
        let ghost cv = vin[i as int];
        proof {
            assert(commands@[i as int]@ == cv);
            assert(vin.take(i as int + 1) =~= vin.take(i as int).push(cv));
            lemma_gpu_snoc(pipelines, vin.take(i as int), cv);
            assert(gs2 == gpu_step(pipelines, gs, cv));
        }
        match &commands[i] {
            RenderCommand::SetPipeline { pipeline } => {
                if draw_state.is_pipeline_set(*pipeline) {
                    proof {
                        assert(gs.pipeline == Some(*pipeline));
                        assert(gpu_fault(pipelines, gs, cv) is None);
                        assert(gs2 == gs);
                    }
                } else {
                    match pipelines.get(*pipeline) {
                        Some(layout) => {
                            let emitted = RenderCommand::SetPipeline { pipeline: *pipeline };
                            out.push(emitted);
                            draw_state.set_pipeline(*pipeline, layout);
                            proof {
                                assert(gpu_fault(pipelines, gs, cv) is None);
                                layout.lemma_declares_iff_contains();
                                assert(gs2.declared == layout.group_order());
                                assert(gs2.vertex_buffers =~= Seq::new(
                                    layout.vertex_buffer_descriptors@.len(),
                                    |k: int| None::<(u64, u64)>,
                                ));
                                assert(draw_state.spec_vertex_buffers() =~= gs2.vertex_buffers);
                                assert(draw_state.wf());
                                assert(draw_state.spec_pipeline() == gs2.pipeline);
                                assert(draw_state.declared_order() == gs2.declared);
                                assert forall|k: u32|
                                    draw_state.bg_declared(k) == gs2.declared.contains(k) by {
                                    assert(draw_state.bg_declared(k) == layout.declares_group(
                                        k,
                                    ));
                                    assert(layout.declares_group(k)
                                        == layout.group_order().contains(k));
                                }
                                assert(forall|k: u32|
                                    #[trigger] gs2.bound.dom().contains(k)
                                        ==> draw_state.bg_declared(k));
                                assert forall|k: u32| #[trigger] draw_state.bg_declared(k)
                                    implies match draw_state.bg_get(k) {
                                    Some(g) => gs2.bound.dom().contains(k) && gs2.bound[k].0
                                        == g,
                                    None => !gs2.bound.dom().contains(k),
                                } by {
                                    assert(layout.declares_group(k));
                                    assert(draw_state.bg_get(k) is None);
                                    assert(!gs2.bound.dom().contains(k));
                                }
                                assert(draw_state.spec_index_buffer() == gs2.index_buffer);
                                assert(tracker_matches(draw_state, gs2));
                                assert(bound_from_prefix(gs2, vin, i as int + 1));
                                if uniform_offset_usage(vin) {
                                    assert(views_of_commands(out@) =~= vout_pre.push(cv));
                                    lemma_gpu_snoc(pipelines, vout_pre, cv);
                                }
                            }
                        },
                        None => {
                            proof {
                                assert(fault_at(pipelines, vin, i as int) == Some(
                                    InvalidDrawState::UnknownPipeline { pipeline: *pipeline },
                                ));
                            }
                            return Err(
                                InvalidDrawState::UnknownPipeline { pipeline: *pipeline },
                            );
                        },
                    }
                }
            },
            RenderCommand::SetBindGroup { index, bind_group, dynamic_uniform_indices } => {
                let no_offsets = dynamic_uniform_indices.len() == 0;
                if no_offsets && draw_state.is_bind_group_set(*index, *bind_group) {
                    proof {
                        let k = *index;
                        assert(gs.bound.dom().contains(k) && gs.bound[k].0 == *bind_group);
                        assert(gpu_fault(pipelines, gs, cv) is None);
                        if uniform_offset_usage(vin) {
                            let j = choose|j: int|
                                0 <= j < i && ((#[trigger] vin[j])
                                    matches Command::SetBindGroup {
                                    index: idx,
                                    bind_group: bg,
                                    dynamic_uniform_indices: offs,
                                } && idx == k && bg == gs.bound[k].0 && offs == gs.bound[k].1);
                            assert(gs.bound[k].1.len() == 0);
                            assert(gs.bound[k].1 =~= dynamic_uniform_indices@);
                            assert(gs.bound[k] == (*bind_group, dynamic_uniform_indices@));
                            assert(gs2.bound =~= gs.bound);
                            assert(gs2 =~= gs);
                        }
                        assert(tracker_matches(draw_state, gs2)) by {
                            assert(gs2.bound.dom() =~= gs.bound.dom().insert(k));
                            assert(gs2.bound.dom() =~= gs.bound.dom());
                            assert(gs2.bound[k].0 == *bind_group);
                            assert(forall|k2: u32|
                                k2 != k && #[trigger] gs.bound.dom().contains(k2)
                                    ==> gs2.bound[k2] == gs.bound[k2]);
                        }
                        assert(bound_from_prefix(gs2, vin, i as int + 1)) by {
                            assert forall|k2: u32| #[trigger] gs2.bound.dom().contains(k2)
                                implies exists|j: int|
                                0 <= j < i as int + 1 && ((#[trigger] vin[j])
                                    matches Command::SetBindGroup {
                                    index: idx,
                                    bind_group: bg,
                                    dynamic_uniform_indices: offs,
                                } && idx == k2 && bg == gs2.bound[k2].0 && offs == gs2.bound[k2].1) by {
                                if k2 == k {
                                    assert(vin[i as int] matches Command::SetBindGroup {
                                        index: idx,
                                        bind_group: bg,
                                        dynamic_uniform_indices: offs,
                                    } && idx == k2 && bg == gs2.bound[k2].0 && offs
                                        == gs2.bound[k2].1);
                                } else {
                                    let j = choose|j: int|
                                        0 <= j < i && ((#[trigger] vin[j])
                                            matches Command::SetBindGroup {
                                            index: idx,
                                            bind_group: bg,
                                            dynamic_uniform_indices: offs,
                                        } && idx == k2 && bg == gs.bound[k2].0 && offs
                                            == gs.bound[k2].1);
                                    assert(vin[j] matches Command::SetBindGroup {
                                        index: idx,
                                        bind_group: bg,
                                        dynamic_uniform_indices: offs,
                                    } && idx == k2 && bg == gs2.bound[k2].0 && offs
                                        == gs2.bound[k2].1);
                                }
                            }
                        }
                    }
                } else {
                    if draw_state.pipeline().is_none() {
                        proof {
                            assert(gs.pipeline is None);
                            assert(!(dynamic_uniform_indices@.len() == 0
                                && gs.bound.dom().contains(*index) && gs.bound[*index].0
                                == *bind_group));
                            assert(fault_at(pipelines, vin, i as int) == Some(
                                InvalidDrawState::BindGroupWithoutPipeline { index: *index },
                            ));
                        }
                        return Err(
                            InvalidDrawState::BindGroupWithoutPipeline { index: *index },
                        );
                    }
                    if !draw_state.is_bind_group_declared(*index) {
                        proof {
                            assert(!gs.declared.contains(*index));
                            assert(fault_at(pipelines, vin, i as int) == Some(
                                InvalidDrawState::UndeclaredBindGroup { index: *index },
                            ));
                        }
                        return Err(InvalidDrawState::UndeclaredBindGroup { index: *index });
                    }
                    out.push(commands[i].clone());
                    let ghost ds_pre = draw_state;
                    draw_state.set_bind_group(*index, *bind_group);
                    proof {
                        let k = *index;
                        assert(gpu_fault(pipelines, gs, cv) is None);
                        assert(gs2.bound == gs.bound.insert(
                            k,
                            (*bind_group, dynamic_uniform_indices@),
                        ));
                        assert(tracker_matches(draw_state, gs2)) by {
                            assert forall|k2: u32| #[trigger] draw_state.bg_declared(k2)
                                implies match draw_state.bg_get(k2) {
                                Some(g) => gs2.bound.dom().contains(k2) && gs2.bound[k2].0 == g,
                                None => !gs2.bound.dom().contains(k2),
                            } by {
                                if k2 != k {
                                    assert(draw_state.bg_get(k2) == ds_pre.bg_get(k2));
                                    assert(ds_pre.bg_declared(k2));
                                }
                            }
                        }
                        assert(bound_from_prefix(gs2, vin, i as int + 1)) by {
                            assert forall|k2: u32| #[trigger] gs2.bound.dom().contains(k2)
                                implies exists|j: int|
                                0 <= j < i as int + 1 && ((#[trigger] vin[j])
                                    matches Command::SetBindGroup {
                                    index: idx,
                                    bind_group: bg,
                                    dynamic_uniform_indices: offs,
                                } && idx == k2 && bg == gs2.bound[k2].0 && offs == gs2.bound[k2].1) by {
                                if k2 == k {
                                    assert(vin[i as int] matches Command::SetBindGroup {
                                        index: idx,
                                        bind_group: bg,
                                        dynamic_uniform_indices: offs,
                                    } && idx == k2 && bg == gs2.bound[k2].0 && offs
                                        == gs2.bound[k2].1);
                                } else {
                                    let j = choose|j: int|
                                        0 <= j < i && ((#[trigger] vin[j])
                                            matches Command::SetBindGroup {
                                            index: idx,
                                            bind_group: bg,
                                            dynamic_uniform_indices: offs,
                                        } && idx == k2 && bg == gs.bound[k2].0 && offs
                                            == gs.bound[k2].1);
                                    assert(vin[j] matches Command::SetBindGroup {
                                        index: idx,
                                        bind_group: bg,
                                        dynamic_uniform_indices: offs,
                                    } && idx == k2 && bg == gs2.bound[k2].0 && offs
                                        == gs2.bound[k2].1);
                                }
                            }
                        }
                        if uniform_offset_usage(vin) {
                            assert(views_of_commands(out@) =~= vout_pre.push(cv));
                            lemma_gpu_snoc(pipelines, vout_pre, cv);
                        }
                    }
                }
            },
            RenderCommand::SetVertexBuffer { slot, buffer, offset } => {
                if (*slot as usize) >= draw_state.vertex_buffer_count() {
                    proof {
                        assert(fault_at(pipelines, vin, i as int) == Some(
                            InvalidDrawState::VertexSlotOutOfRange { slot: *slot },
                        ));
                    }
                    return Err(InvalidDrawState::VertexSlotOutOfRange { slot: *slot });
                }
                if draw_state.is_vertex_buffer_set(*slot, *buffer, *offset) {
                    proof {
                        assert(gpu_fault(pipelines, gs, cv) is None);
                        assert(gs2.vertex_buffers =~= gs.vertex_buffers);
                        assert(gs2 =~= gs);
                        assert(bound_from_prefix(gs2, vin, i as int + 1));
                    }
                } else {
                    let emitted = RenderCommand::SetVertexBuffer {
                        slot: *slot,
                        buffer: *buffer,
                        offset: *offset,
                    };
                    out.push(emitted);
                    draw_state.set_vertex_buffer(*slot, *buffer, *offset);
                    proof {
                        assert(gpu_fault(pipelines, gs, cv) is None);
                        assert(tracker_matches(draw_state, gs2));
                        assert(bound_from_prefix(gs2, vin, i as int + 1));
                        if uniform_offset_usage(vin) {
                            assert(views_of_commands(out@) =~= vout_pre.push(cv));
                            lemma_gpu_snoc(pipelines, vout_pre, cv);
                        }
                    }
                }
            },
            RenderCommand::SetIndexBuffer { buffer, offset, index_format } => {
                if draw_state.is_index_buffer_set(*buffer, *offset, *index_format) {
                    proof {
                        assert(gpu_fault(pipelines, gs, cv) is None);
                        assert(gs2 =~= gs);
                        assert(bound_from_prefix(gs2, vin, i as int + 1));
                    }
                } else {
                    let emitted = RenderCommand::SetIndexBuffer {
                        buffer: *buffer,
                        offset: *offset,
                        index_format: *index_format,
                    };
                    out.push(emitted);
                    draw_state.set_index_buffer(*buffer, *offset, *index_format);
                    proof {
                        assert(gpu_fault(pipelines, gs, cv) is None);
                        assert(tracker_matches(draw_state, gs2));
                        assert(bound_from_prefix(gs2, vin, i as int + 1));
                        if uniform_offset_usage(vin) {
                            assert(views_of_commands(out@) =~= vout_pre.push(cv));
                            lemma_gpu_snoc(pipelines, vout_pre, cv);
                        }
                    }
                }
            },
            RenderCommand::SetPushConstants { stages, offset, data } => {
                out.push(commands[i].clone());
                proof {
                    assert(gpu_fault(pipelines, gs, cv) is None);
                    assert(gs2 == gs);
                    assert(bound_from_prefix(gs2, vin, i as int + 1));
                    if uniform_offset_usage(vin) {
                        assert(views_of_commands(out@) =~= vout_pre.push(cv));
                        lemma_gpu_snoc(pipelines, vout_pre, cv);
                    }
                }
            },
            RenderCommand::Draw { vertices_start, vertices_end, instances_start, instances_end } => {
                match draw_state.draw_fault(false) {
                    Some(e) => {
                        proof {
                            lemma_draw_fault_equiv(draw_state, gs, false);
                            assert(fault_at(pipelines, vin, i as int) == Some(e));
                        }
                        return Err(e);
                    },
                    None => {
                        let emitted = RenderCommand::Draw {
                            vertices_start: *vertices_start,
                            vertices_end: *vertices_end,
                            instances_start: *instances_start,
                            instances_end: *instances_end,
                        };
                        out.push(emitted);
                        proof {
                            lemma_draw_fault_equiv(draw_state, gs, false);
                            assert(gpu_fault(pipelines, gs, cv) is None);
                            assert(gs2 == gs);
                            assert(bound_from_prefix(gs2, vin, i as int + 1));
                            if uniform_offset_usage(vin) {
                                assert(views_of_commands(out@) =~= vout_pre.push(cv));
                                lemma_gpu_snoc(pipelines, vout_pre, cv);
                            }
                        }
                    },
                }
            },
            RenderCommand::DrawIndexed {
                indices_start,
                indices_end,
                base_vertex,
                instances_start,
                instances_end,
            } => {
                match draw_state.draw_fault(true) {
                    Some(e) => {
                        proof {
                            lemma_draw_fault_equiv(draw_state, gs, true);
                            assert(fault_at(pipelines, vin, i as int) == Some(e));
                        }
                        return Err(e);
                    },
                    None => {
                        let emitted = RenderCommand::DrawIndexed {
                            indices_start: *indices_start,
                            indices_end: *indices_end,
                            base_vertex: *base_vertex,
                            instances_start: *instances_start,
                            instances_end: *instances_end,
                        };
                        out.push(emitted);
                        proof {
                            lemma_draw_fault_equiv(draw_state, gs, true);
                            assert(gpu_fault(pipelines, gs, cv) is None);
                            assert(gs2 == gs);
                            assert(bound_from_prefix(gs2, vin, i as int + 1));
                            if uniform_offset_usage(vin) {
                                assert(views_of_commands(out@) =~= vout_pre.push(cv));
                                lemma_gpu_snoc(pipelines, vout_pre, cv);
                            }
                        }
                    },
                }
            },
        }
        i = i + 1;
    }
    proof {
        assert(vin.take(n as int) =~= vin);
    }
    Ok(out)
}

} // verus!
