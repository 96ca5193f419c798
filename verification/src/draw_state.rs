//! Snapshot of the GPU binding state while a pass is compiled: the current
//! pipeline, the bind group bound at each layout-declared index, the vertex
//! buffer bound at each declared slot, and the index buffer. The draw-state
//! compiler consults it to drop redundant state changes and to refuse draws
//! with incomplete bindings. Reset at each pass boundary.

use vstd::prelude::*;
use crate::command::IndexFormat;
use crate::layout::PipelineLayout;

verus! {

/// Why a command stream may not be turned into GPU calls: a draw was issued
/// without its required bindings, or a binding command did not fit the
/// current pipeline's layout. Always programmer error; compiling the pass
/// aborts rather than issuing an invalid GPU call.
#[derive(Clone, Copy, PartialEq, Eq, Structural, Debug)]
pub enum InvalidDrawState {
    /// A draw was issued with no pipeline set.
    MissingPipeline,
    /// A draw was issued while the layout-declared bind group slot `index`
    /// was unpopulated.
    MissingBindGroup { index: u32 },
    /// A draw was issued while the declared vertex buffer slot `slot` was
    /// unpopulated.
    MissingVertexBuffer { slot: u32 },
    /// An indexed draw was issued with no index buffer set.
    MissingIndexBuffer,
    /// A pipeline handle is not present in the pipeline registry.
    UnknownPipeline { pipeline: u64 },
    /// A bind group was set before any pipeline was set.
    BindGroupWithoutPipeline { index: u32 },
    /// A bind group was set at an index the current layout does not declare.
    UndeclaredBindGroup { index: u32 },
    /// A vertex buffer was set at a slot beyond the current layout's count.
    VertexSlotOutOfRange { slot: u32 },
}

/// The first unpopulated slot in a sequence of vertex buffer bindings.
pub open spec fn spec_first_unset_slot(s: Seq<Option<(u64, u64)>>) -> Option<int>
    decreases s.len(),
{
    if s.len() == 0 {
        None
    } else if s[0] is None {
        Some(0)
    } else {
        match spec_first_unset_slot(s.drop_first()) {
            Some(i) => Some(i + 1),
            None => None,
        }
    }
}

/// When the slots before position `i` are bound and the slot at `i` is
/// not, the first unbound slot is the one at `i`.
proof fn lemma_first_unbound_at(ds: DrawState, s: Seq<u32>, i: int)
    requires
        0 <= i < s.len(),
        forall|j: int| 0 <= j < i ==> ds.bg_get(#[trigger] s[j]) is Some,
        ds.bg_get(s[i]) is None,
    ensures
        ds.first_unbound_in(s) == Some(s[i]),
    decreases i,
{
    if i > 0 {
        lemma_first_unbound_at(ds, s.drop_first(), i - 1);
    }
}

/// When every slot in `s` is bound, no slot in `s` is unbound.
proof fn lemma_first_unbound_none(ds: DrawState, s: Seq<u32>)
    requires
        forall|j: int| 0 <= j < s.len() ==> ds.bg_get(#[trigger] s[j]) is Some,
    ensures
        ds.first_unbound_in(s) is None,
    decreases s.len(),
{
    if s.len() > 0 {
        lemma_first_unbound_none(ds, s.drop_first());
    }
}

/// When the slots before position `i` are populated and the slot at `i` is
/// not, the first unpopulated slot is `i`.
proof fn lemma_first_unset_at(s: Seq<Option<(u64, u64)>>, i: int)
    requires
        0 <= i < s.len(),
        forall|j: int| 0 <= j < i ==> s[j] is Some,
        s[i] is None,
    ensures
        spec_first_unset_slot(s) == Some(i),
    decreases i,
{
    if i > 0 {
        lemma_first_unset_at(s.drop_first(), i - 1);
    }
}

/// When every slot is populated, no slot is unpopulated.
proof fn lemma_first_unset_none(s: Seq<Option<(u64, u64)>>)
    requires
        forall|j: int| 0 <= j < s.len() ==> s[j] is Some,
    ensures
        spec_first_unset_slot(s) is None,
    decreases s.len(),
{
    if s.len() > 0 {
        lemma_first_unset_none(s.drop_first());
    }
}

/// Tracks the current pipeline state to ensure draw calls are valid.
pub struct DrawState {
    pipeline: Option<u64>,
    bind_groups: Vec<(u32, Option<u64>)>,
    vertex_buffers: Vec<Option<(u64, u64)>>,
    index_buffer: Option<(u64, u64, IndexFormat)>,
}

impl DrawState {
    /// The currently set pipeline, if any.
    pub closed spec fn spec_pipeline(&self) -> Option<u64> {
        self.pipeline
    }

    /// Whether bind group slot `index` is declared by the current pipeline's
    /// layout.
    pub closed spec fn bg_declared(&self, index: u32) -> bool {
        exists|i: int|
            0 <= i < self.bind_groups@.len() && self.bind_groups@[i].0 == index
    }

    /// The bind group bound at slot `index` (`None` while the slot is
    /// declared but not yet bound). Meaningful only when declared.
    pub closed spec fn bg_get(&self, index: u32) -> Option<u64> {
        self.bind_groups@[choose|i: int|
            0 <= i < self.bind_groups@.len() && self.bind_groups@[i].0 == index].1
    }

    /// The vertex buffer and offset bound at each declared slot.
    pub closed spec fn spec_vertex_buffers(&self) -> Seq<Option<(u64, u64)>> {
        self.vertex_buffers@
    }

    /// The bound index buffer, if any.
    pub closed spec fn spec_index_buffer(&self) -> Option<(u64, u64, IndexFormat)> {
        self.index_buffer
    }

    /// The declared bind group slots, in the order the current pipeline's
    /// layout declares them.
    pub closed spec fn declared_order(&self) -> Seq<u32> {
        self.bind_groups@.map_values(|e: (u32, Option<u64>)| e.0)
    }

    /// The first declared-but-unbound slot among the slots `s`, if any.
    pub open spec fn first_unbound_in(&self, s: Seq<u32>) -> Option<u32>
        decreases s.len(),
    {
        if s.len() == 0 {
            None
        } else if self.bg_get(s[0]) is None {
            Some(s[0])
        } else {
            self.first_unbound_in(s.drop_first())
        }
    }

    /// Why a draw (indexed when `indexed`) would be invalid now, if it
    /// would: the first missing binding, in the order pipeline, bind
    /// groups, vertex buffers, index buffer.
    pub open spec fn spec_draw_fault(&self, indexed: bool) -> Option<InvalidDrawState> {
        if self.spec_pipeline() is None {
            Some(InvalidDrawState::MissingPipeline)
        } else {
            match self.first_unbound_in(self.declared_order()) {
                Some(k) => Some(InvalidDrawState::MissingBindGroup { index: k }),
                None => match spec_first_unset_slot(self.spec_vertex_buffers()) {
                    Some(i) => Some(InvalidDrawState::MissingVertexBuffer { slot: i as u32 }),
                    None => if indexed && self.spec_index_buffer() is None {
                        Some(InvalidDrawState::MissingIndexBuffer)
                    } else {
                        None
                    },
                },
            }
        }
    }

    /// No bind group slot is tracked twice.
    pub closed spec fn wf(&self) -> bool {
        forall|i: int, j: int|
            0 <= i < j < self.bind_groups@.len() ==> self.bind_groups@[i].0
                != self.bind_groups@[j].0
    }

    /// All declared bind group slots are bound.
    pub open spec fn spec_all_bind_groups_set(&self) -> bool {
        forall|k: u32| self.bg_declared(k) ==> self.bg_get(k) is Some
    }

    /// All declared vertex buffer slots are bound.
    pub open spec fn spec_all_vertex_buffers_set(&self) -> bool {
        forall|i: int|
            0 <= i < self.spec_vertex_buffers().len() ==> self.spec_vertex_buffers()[i] is Some
    }

    /// A non-indexed draw is valid: a pipeline is set and every declared
    /// binding is populated.
    pub open spec fn spec_can_draw(&self) -> bool {
        &&& self.spec_pipeline() is Some
        &&& self.spec_all_bind_groups_set()
        &&& self.spec_all_vertex_buffers_set()
    }

    /// An indexed draw additionally needs an index buffer.
    pub open spec fn spec_can_draw_indexed(&self) -> bool {
        self.spec_can_draw() && self.spec_index_buffer() is Some
    }

    /// At each position of the declaration order, the tracked binding is
    /// what `bg_get` yields for the slot declared there.
    proof fn lemma_entries(&self)
        requires
            self.wf(),
        ensures
            forall|j: int|
                0 <= j < self.declared_order().len() ==> self.bg_get(
                    #[trigger] self.declared_order()[j],
                ) == self.bind_groups@[j].1,
    {
        assert forall|j: int| 0 <= j < self.declared_order().len() implies self.bg_get(
            self.declared_order()[j],
        ) == self.bind_groups@[j].1 by {
            let k = self.declared_order()[j];
            assert(self.bind_groups@[j].0 == k);
            let w = choose|i: int|
                0 <= i < self.bind_groups@.len() && self.bind_groups@[i].0 == k;
            assert(w == j);
        }
    }

    /// Why a draw would be invalid now, if it would be.
    pub fn draw_fault(&self, indexed: bool) -> (r: Option<InvalidDrawState>)
        requires
            self.wf(),
        ensures
            r == self.spec_draw_fault(indexed),
    {
        if self.pipeline.is_none() {
            return Some(InvalidDrawState::MissingPipeline);
        }
        proof {
            self.lemma_entries();
        }
        let n = self.bind_groups.len();
        let mut i: usize = 0;
        while i < n
            invariant
                self.wf(),
                self.spec_pipeline() is Some,
                n == self.bind_groups@.len(),
                i <= n,
                forall|j: int| 0 <= j < i ==> self.bind_groups@[j].1 is Some,
                forall|j: int|
                    0 <= j < self.declared_order().len() ==> self.bg_get(
                        #[trigger] self.declared_order()[j],
                    ) == self.bind_groups@[j].1,
            decreases n - i,
        {
            if self.bind_groups[i].1.is_none() {
                proof {
                    lemma_first_unbound_at(*self, self.declared_order(), i as int);
                }
                return Some(
                    InvalidDrawState::MissingBindGroup { index: self.bind_groups[i].0 },
                );
            }
            i = i + 1;
        }
        proof {
            lemma_first_unbound_none(*self, self.declared_order());
        }
        let m = self.vertex_buffers.len();
        let mut v: usize = 0;
        while v < m
            invariant
                self.spec_pipeline() is Some,
                self.first_unbound_in(self.declared_order()) is None,
                m == self.vertex_buffers@.len(),
                v <= m,
                forall|j: int| 0 <= j < v ==> self.vertex_buffers@[j] is Some,
            decreases m - v,
        {
            if self.vertex_buffers[v].is_none() {
                proof {
                    lemma_first_unset_at(self.spec_vertex_buffers(), v as int);
                }
                return Some(
                    InvalidDrawState::MissingVertexBuffer {
                        slot: #[verifier::truncate] (v as u32),
                    },
                );
            }
            v = v + 1;
        }
        proof {
            lemma_first_unset_none(self.spec_vertex_buffers());
        }
        if indexed && self.index_buffer.is_none() {
            return Some(InvalidDrawState::MissingIndexBuffer);
        }
        None
    }

    /// Binds `bind_group` at slot `index`.
    pub fn set_bind_group(&mut self, index: u32, bind_group: u64)
        requires
            old(self).wf(),
            old(self).bg_declared(index),
        ensures
            final(self).wf(),
            final(self).spec_pipeline() == old(self).spec_pipeline(),
            final(self).spec_vertex_buffers() == old(self).spec_vertex_buffers(),
            final(self).spec_index_buffer() == old(self).spec_index_buffer(),
            final(self).declared_order() == old(self).declared_order(),
            forall|k: u32| final(self).bg_declared(k) == old(self).bg_declared(k),
            final(self).bg_get(index) == Some(bind_group),
            forall|k: u32|
                k != index && old(self).bg_declared(k) ==> final(self).bg_get(k) == old(
                    self,
                ).bg_get(k),
    {
        let n = self.bind_groups.len();
        let mut i: usize = 0;
        while i < n
            invariant
                *self == *old(self),
                old(self).wf(),
                old(self).bg_declared(index),
                n == self.bind_groups@.len(),
                i <= n,
                forall|j: int| 0 <= j < i ==> self.bind_groups@[j].0 != index,
            decreases n - i,
        {
            if self.bind_groups[i].0 == index {
                let v = (index, Some(bind_group));
                self.bind_groups.set(i, v);
                proof {
                    let s_old = old(self).bind_groups@;
                    let s_new = self.bind_groups@;
                    assert(s_new == s_old.update(i as int, (index, Some(bind_group))));
                    assert forall|k: u32| self.bg_declared(k) == old(self).bg_declared(k) by {
                        if old(self).bg_declared(k) {
                            let w = choose|j: int| 0 <= j < s_old.len() && s_old[j].0 == k;
                            assert(s_new[w].0 == k);
                        }
                        if self.bg_declared(k) {
                            let w = choose|j: int| 0 <= j < s_new.len() && s_new[j].0 == k;
                            assert(s_old[w].0 == k);
                        }
                    }
                    assert(self.bg_declared(index) && self.bg_get(index) == Some(bind_group)) by {
                        assert(s_new[i as int].0 == index);
                        let w = choose|j: int| 0 <= j < s_new.len() && s_new[j].0 == index;
                        assert(w == i as int);
                    }
                    assert(self.declared_order() =~= old(self).declared_order());
                    assert forall|k: u32| k != index && old(self).bg_declared(k) implies
                        self.bg_get(k) == old(self).bg_get(k) by {
                        let w = choose|j: int| 0 <= j < s_old.len() && s_old[j].0 == k;
                        let w2 = choose|j: int| 0 <= j < s_new.len() && s_new[j].0 == k;
                        assert(s_new[w].0 == k);
                        assert(s_old[w2].0 == k);
                        assert(w == w2);
                    }
                }
                return ;
            }
            i = i + 1;
        }
        proof {
            let w = choose|j: int|
                0 <= j < old(self).bind_groups@.len() && old(self).bind_groups@[j].0 == index;
            assert(false);
        }
    }

    /// Whether the current pipeline's layout declares bind group slot
    /// `index`.
    pub fn is_bind_group_declared(&self, index: u32) -> (r: bool)
        requires
            self.wf(),
        ensures
            r == self.bg_declared(index),
    {
        let n = self.bind_groups.len();
        let mut i: usize = 0;
        while i < n
            invariant
                n == self.bind_groups@.len(),
                i <= n,
                forall|j: int| 0 <= j < i ==> self.bind_groups@[j].0 != index,
            decreases n - i,
        {
            if self.bind_groups[i].0 == index {
                return true;
            }
            i = i + 1;
        }
        proof {
            if self.bg_declared(index) {
                let w = choose|j: int|
                    0 <= j < self.bind_groups@.len() && self.bind_groups@[j].0 == index;
                assert(false);
            }
        }
        false
    }

    /// How many vertex buffer slots the current pipeline's layout declares.
    pub fn vertex_buffer_count(&self) -> (r: usize)
        ensures
            r == self.spec_vertex_buffers().len(),
    {
        self.vertex_buffers.len()
    }

    /// Whether slot `index` currently holds exactly `bind_group`.
    pub fn is_bind_group_set(&self, index: u32, bind_group: u64) -> (r: bool)
        requires
            self.wf(),
        ensures
            r == (self.bg_declared(index) && self.bg_get(index) == Some(bind_group)),
    {
        let n = self.bind_groups.len();
        let mut i: usize = 0;
        while i < n
            invariant
                self.wf(),
                n == self.bind_groups@.len(),
                i <= n,
                forall|j: int| 0 <= j < i ==> self.bind_groups@[j].0 != index,
            decreases n - i,
        {
            let entry = self.bind_groups[i];
            if entry.0 == index {
                proof {
                    let w = choose|j: int|
                        0 <= j < self.bind_groups@.len() && self.bind_groups@[j].0 == index;
                    assert(self.bind_groups@[i as int].0 == index);
                    assert(w == i as int);
                }
                return match entry.1 {
                    Some(g) => g == bind_group,
                    None => false,
                };
            }
            i = i + 1;
        }
        false
    }

    /// Binds `buffer` at vertex buffer slot `index`.
    pub fn set_vertex_buffer(&mut self, index: u32, buffer: u64, offset: u64)
        requires
            (index as int) < old(self).spec_vertex_buffers().len(),
        ensures
            final(self).spec_vertex_buffers() == old(self).spec_vertex_buffers().update(
                index as int,
                Some((buffer, offset)),
            ),
            final(self).spec_pipeline() == old(self).spec_pipeline(),
            final(self).spec_index_buffer() == old(self).spec_index_buffer(),
            final(self).declared_order() == old(self).declared_order(),
            forall|k: u32| final(self).bg_declared(k) == old(self).bg_declared(k),
            forall|k: u32| final(self).bg_get(k) == old(self).bg_get(k),
            final(self).wf() == old(self).wf(),
    {
        let v = Some((buffer, offset));
        self.vertex_buffers.set(index as usize, v);
    }

    /// Whether vertex buffer slot `index` currently holds exactly
    /// `(buffer, offset)`.
    pub fn is_vertex_buffer_set(&self, index: u32, buffer: u64, offset: u64) -> (r: bool)
        requires
            (index as int) < self.spec_vertex_buffers().len(),
        ensures
            r == (self.spec_vertex_buffers()[index as int] == Some((buffer, offset))),
    {
        match self.vertex_buffers[index as usize] {
            Some(entry) => entry.0 == buffer && entry.1 == offset,
            None => false,
        }
    }

    /// Binds the index buffer.
    pub fn set_index_buffer(&mut self, buffer: u64, offset: u64, index_format: IndexFormat)
        ensures
            final(self).spec_index_buffer() == Some((buffer, offset, index_format)),
            final(self).spec_pipeline() == old(self).spec_pipeline(),
            final(self).spec_vertex_buffers() == old(self).spec_vertex_buffers(),
            final(self).declared_order() == old(self).declared_order(),
            forall|k: u32| final(self).bg_declared(k) == old(self).bg_declared(k),
            forall|k: u32| final(self).bg_get(k) == old(self).bg_get(k),
            final(self).wf() == old(self).wf(),
    {
        self.index_buffer = Some((buffer, offset, index_format));
    }

    /// Whether the index buffer currently holds exactly
    /// `(buffer, offset, index_format)`.
    pub fn is_index_buffer_set(&self, buffer: u64, offset: u64, index_format: IndexFormat) -> (r:
        bool)
        ensures
            r == (self.spec_index_buffer() == Some((buffer, offset, index_format))),
    {
        match self.index_buffer {
            Some(entry) => entry.0 == buffer && entry.1 == offset && entry.2 == index_format,
            None => false,
        }
    }

    /// Whether a non-indexed draw may be issued now.
    pub fn can_draw(&self) -> (r: bool)
        requires
            self.wf(),
        ensures
            r == self.spec_can_draw(),
    {
        if self.pipeline.is_none() {
            proof {
                assert(!self.spec_can_draw());
            }
            return false;
        }
        let n = self.bind_groups.len();
        let mut i: usize = 0;
        while i < n
            invariant
                self.wf(),
                n == self.bind_groups@.len(),
                i <= n,
                forall|j: int| 0 <= j < i ==> self.bind_groups@[j].1 is Some,
            decreases n - i,
        {
            if self.bind_groups[i].1.is_none() {
                proof {
                    let k = self.bind_groups@[i as int].0;
                    assert(self.bg_declared(k));
                    let w = choose|j: int|
                        0 <= j < self.bind_groups@.len() && self.bind_groups@[j].0 == k;
                    assert(w == i as int);
                    assert(self.bg_get(k) is None);
                }
                return false;
            }
            i = i + 1;
        }
        let m = self.vertex_buffers.len();
        let mut v: usize = 0;
        while v < m
            invariant
                m == self.vertex_buffers@.len(),
                v <= m,
                forall|j: int| 0 <= j < v ==> self.vertex_buffers@[j] is Some,
            decreases m - v,
        {
            if self.vertex_buffers[v].is_none() {
                return false;
            }
            v = v + 1;
        }
        proof {
            assert forall|k: u32| self.bg_declared(k) implies self.bg_get(k) is Some by {
                let w = choose|j: int|
                    0 <= j < self.bind_groups@.len() && self.bind_groups@[j].0 == k;
                assert(self.bind_groups@[w].1 is Some);
            }
        }
        true
    }

    /// Whether an indexed draw may be issued now.
    pub fn can_draw_indexed(&self) -> (r: bool)
        requires
            self.wf(),
        ensures
            r == self.spec_can_draw_indexed(),
    {
        self.can_draw() && self.index_buffer.is_some()
    }

    /// Whether `pipeline` is the currently set pipeline.
    pub fn is_pipeline_set(&self, pipeline: u64) -> (r: bool)
        ensures
            r == (self.spec_pipeline() == Some(pipeline)),
    {
        match self.pipeline {
            Some(p) => p == pipeline,
            None => false,
        }
    }

    /// Makes `handle` the current pipeline. A new pipeline layout
    /// invalidates previous bindings: every bind group slot the layout
    /// declares becomes empty, the vertex buffer slots are resized to the
    /// layout's count and emptied, and the index buffer is cleared.
    pub fn set_pipeline(&mut self, handle: u64, layout: &PipelineLayout)
        requires
            layout.unique_group_indices(),
        ensures
            final(self).wf(),
            final(self).spec_pipeline() == Some(handle),
            final(self).declared_order() == layout.group_order(),
            forall|k: u32| final(self).bg_declared(k) == layout.declares_group(k),
            forall|k: u32| layout.declares_group(k) ==> final(self).bg_get(k) is None,
            final(self).spec_vertex_buffers() == Seq::new(
                layout.vertex_buffer_descriptors@.len(),
                |i: int| None::<(u64, u64)>,
            ),
            final(self).spec_index_buffer() is None,
    {
        self.bind_groups.clear();
        self.vertex_buffers.clear();
        self.index_buffer = None;
        self.pipeline = Some(handle);

        let n = layout.bind_groups.len();
        let mut i: usize = 0;
        while i < n
            invariant
                n == layout.bind_groups@.len(),
                i <= n,
                layout.unique_group_indices(),
                self.pipeline == Some(handle),
                self.vertex_buffers@.len() == 0,
                self.index_buffer is None,
                self.bind_groups@.len() == i,
                forall|j: int|
                    0 <= j < i ==> self.bind_groups@[j] == (layout.bind_groups@[j]@.index, None::<
                        u64,
                    >),
            decreases n - i,
        {
            let idx = layout.bind_groups[i].index;
            let v = (idx, None);
            self.bind_groups.push(v);
            i = i + 1;
        }

        let m = layout.vertex_buffer_descriptors.len();
        let mut v: usize = 0;
        while v < m
            invariant
                n == layout.bind_groups@.len(),
                m == layout.vertex_buffer_descriptors@.len(),
                v <= m,
                layout.unique_group_indices(),
                self.pipeline == Some(handle),
                self.index_buffer is None,
                self.bind_groups@.len() == n,
                forall|j: int|
                    0 <= j < n ==> self.bind_groups@[j] == (layout.bind_groups@[j]@.index, None::<
                        u64,
                    >),
                self.vertex_buffers@.len() == v,
                forall|j: int| 0 <= j < v ==> self.vertex_buffers@[j] is None,
            decreases m - v,
        {
            let e = None;
            self.vertex_buffers.push(e);
            v = v + 1;
        }

        proof {
            assert(self.declared_order() =~= layout.group_order());
            assert forall|k: u32| self.bg_declared(k) == layout.declares_group(k) by {
                if layout.declares_group(k) {
                    let w = choose|j: int|
                        0 <= j < layout.bind_groups@.len() && layout.bind_groups@[j]@.index == k;
                    assert(self.bind_groups@[w].0 == k);
                }
                if self.bg_declared(k) {
                    let w = choose|j: int|
                        0 <= j < self.bind_groups@.len() && self.bind_groups@[j].0 == k;
                    assert(layout.bind_groups@[w]@.index == k);
                }
            }
            assert forall|k: u32| layout.declares_group(k) implies self.bg_get(k) is None by {
                let w = choose|j: int|
                    0 <= j < self.bind_groups@.len() && self.bind_groups@[j].0 == k;
                assert(self.bind_groups@[w].1 is None);
            }
            assert(self.spec_vertex_buffers() =~= Seq::new(
                layout.vertex_buffer_descriptors@.len(),
                |i: int| None::<(u64, u64)>,
            ));
        }
    }

    /// The currently set pipeline.
    pub fn pipeline(&self) -> (r: &Option<u64>)
        ensures
            *r == self.spec_pipeline(),
    {
        &self.pipeline
    }
}

impl Default for DrawState {
    /// The empty state a pass starts from: nothing set, nothing declared.
    fn default() -> (r: Self)
        ensures
            r.wf(),
            r.spec_pipeline() is None,
            r.declared_order() == Seq::<u32>::empty(),
            forall|k: u32| !r.bg_declared(k),
            r.spec_vertex_buffers() == Seq::<Option<(u64, u64)>>::empty(),
            r.spec_index_buffer() is None,
    {
        let r = DrawState {
            pipeline: None,
            bind_groups: Vec::new(),
            vertex_buffers: Vec::new(),
            index_buffer: None,
        };
        proof {
            assert(r.declared_order() =~= Seq::<u32>::empty());
            assert(r.spec_vertex_buffers() =~= Seq::<Option<(u64, u64)>>::empty());
        }
        r
    }
}

} // verus!
