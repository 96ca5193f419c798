//! Frame execution: walks the graph's topological order, hands each node
//! the values its input slots resolved to, and records the values the
//! node's update produced on its output slots. An input's value is the
//! producer's output captured after the producer ran; a missing required
//! input is fatal for the frame.
//!
//! The caller (who owns the nodes' behaviour) drives the walk: ask for
//! the current node, gather its inputs, run the node, then hand its
//! outputs back.

use vstd::prelude::*;
use crate::graph::{RenderGraph, SlotEdge, node_ints};
use crate::slot::{ResourceType, SlotValue};

verus! {

/// A fatal condition while executing one frame.
#[derive(Clone, Copy, PartialEq, Eq, Structural, Debug)]
pub enum FrameError {
    /// An input slot of the node about to run has no resolved value:
    /// either no slot edge feeds it, or its producer did not fill the
    /// output. No partial frame execution: the frame aborts.
    MissingSlotValue,
    /// Every node has already run this frame.
    NoNodePending,
    /// The node handed back a different number of outputs than it
    /// declares output slots.
    WrongOutputCount,
    /// An output value's resource type differs from the declared type of
    /// its slot.
    MismatchedOutputType,
}

/// The state of one frame's walk over the graph.
pub struct FrameExecutor {
    order: Vec<usize>,
    pos: usize,
    sources: Vec<Vec<Option<(usize, usize)>>>,
    out_types: Vec<Vec<ResourceType>>,
    outputs: Vec<Vec<Option<SlotValue>>>,
}

impl FrameExecutor {
    /// The node indices in execution order.
    pub closed spec fn spec_order(&self) -> Seq<usize> {
        self.order@
    }

    /// How many nodes have completed this frame.
    pub closed spec fn spec_pos(&self) -> nat {
        self.pos as nat
    }

    /// For each node and input slot, the producer `(node, output slot)`
    /// feeding it, if any edge does.
    pub closed spec fn spec_sources(&self) -> Seq<Seq<Option<(usize, usize)>>> {
        self.sources@.map_values(|v: Vec<Option<(usize, usize)>>| v@)
    }

    /// For each node, the declared resource type of each output slot.
    pub closed spec fn spec_out_types(&self) -> Seq<Seq<ResourceType>> {
        self.out_types@.map_values(|v: Vec<ResourceType>| v@)
    }

    /// For each node, the value recorded on each output slot this frame.
    pub closed spec fn spec_outputs(&self) -> Seq<Seq<Option<SlotValue>>> {
        self.outputs@.map_values(|v: Vec<Option<SlotValue>>| v@)
    }

    /// The shape invariant of a frame walk.
    pub open spec fn wf(&self) -> bool {
        &&& self.spec_pos() <= self.spec_order().len()
        &&& self.spec_sources().len() == self.spec_outputs().len()
        &&& self.spec_out_types().len() == self.spec_outputs().len()
        &&& forall|i: int|
            0 <= i < self.spec_order().len() ==> ((#[trigger] self.spec_order()[i]) as int)
                < self.spec_outputs().len()
        &&& forall|i: int|
            0 <= i < self.spec_outputs().len() ==> (#[trigger] self.spec_outputs()[i]).len()
                == self.spec_out_types()[i].len()
        &&& forall|d: int, s: int|
            0 <= d < self.spec_sources().len() && 0 <= s < self.spec_sources()[d].len() ==> (
            match #[trigger] self.spec_sources()[d][s] {
                Some(src) => src.0 < self.spec_outputs().len() && (src.1 as int)
                    < self.spec_outputs()[src.0 as int].len(),
                None => true,
            })
    }

    /// The node that runs next, or `None` when the frame is complete.
    pub fn current_node(&self) -> (r: Option<usize>)
        ensures
            match r {
                Some(v) => self.spec_pos() < self.spec_order().len() && v == self.spec_order()[
                    self.spec_pos() as int],
                None => self.spec_pos() >= self.spec_order().len(),
            },
    {
        if self.pos < self.order.len() {
            Some(self.order[self.pos])
        } else {
            None
        }
    }

    /// The values the current node's input slots resolved to, in slot
    /// order. Each is, by identity, the value its producer recorded this
    /// frame; any unfed or unfilled input aborts the frame.
    pub fn gather_inputs(&self) -> (r: Result<Vec<SlotValue>, FrameError>)
        requires
            self.wf(),
            self.spec_pos() < self.spec_order().len(),
        ensures
            ({
                let node = self.spec_order()[self.spec_pos() as int] as int;
                match r {
                    Ok(vals) => {
                        &&& vals@.len() == self.spec_sources()[node].len()
                        &&& forall|i: int|
                            0 <= i < vals@.len() ==> (#[trigger] self.spec_sources()[node][i])
                                is Some
                        &&& forall|i: int|
                            0 <= i < vals@.len() ==> self.spec_outputs()[self.spec_sources()[
                                node][i]->Some_0.0 as int][self.spec_sources()[node][
                                i]->Some_0.1 as int] == Some(#[trigger] vals@[i])
                    },
                    Err(e) => {
                        &&& e == FrameError::MissingSlotValue
                        &&& exists|i: int|
                            0 <= i < self.spec_sources()[node].len() && (
                            match #[trigger] self.spec_sources()[node][i] {
                                Some(src) => self.spec_outputs()[src.0 as int][src.1 as int]
                                    is None,
                                None => true,
                            })
                    },
                }
            }),
    {
        let node = self.order[self.pos];
        let srcs = &self.sources[node];
        let n = srcs.len();
        let mut vals: Vec<SlotValue> = Vec::new();
        let mut i: usize = 0;
        while i < n
            invariant
                self.wf(),
                self.spec_pos() < self.spec_order().len(),
                node as int == self.spec_order()[self.spec_pos() as int],
                (node as int) < self.spec_sources().len(),
                srcs == &self.sources@[node as int],
                n == srcs@.len(),
                i <= n,
                vals@.len() == i,
                forall|j: int|
                    0 <= j < i ==> (#[trigger] self.spec_sources()[node as int][j]) is Some,
                forall|j: int|
                    0 <= j < i ==> self.spec_outputs()[self.spec_sources()[node as int][
                        j]->Some_0.0 as int][self.spec_sources()[node as int][
                        j]->Some_0.1 as int] == Some(#[trigger] vals@[j]),
            decreases n - i,
        {
            match srcs[i] {
                Some(src) => {
                    proof {
                        assert(self.spec_sources()[node as int][i as int] == Some(src));
                    }
                    match self.outputs[src.0][src.1] {
                        Some(v) => {
                            vals.push(v);
                        },
                        None => {
                            return Err(FrameError::MissingSlotValue);
                        },
                    }
                },
                None => {
                    return Err(FrameError::MissingSlotValue);
                },
            }
            i = i + 1;
        }
        Ok(vals)
    }

    /// Records the current node's outputs and advances the frame. The
    /// values are checked against the node's declared output slots.
    pub fn complete_node(&mut self, produced: Vec<Option<SlotValue>>) -> (r: Result<
        (),
        FrameError,
    >)
        requires
            old(self).wf(),
        ensures
            final(self).wf(),
            final(self).spec_order() == old(self).spec_order(),
            final(self).spec_sources() == old(self).spec_sources(),
            final(self).spec_out_types() == old(self).spec_out_types(),
            match r {
                Ok(_) => {
                    let node = old(self).spec_order()[old(self).spec_pos() as int] as int;
                    &&& old(self).spec_pos() < old(self).spec_order().len()
                    &&& produced@.len() == old(self).spec_out_types()[node].len()
                    &&& forall|i: int|
                        0 <= i < produced@.len() ==> ((#[trigger] produced@[i]) matches Some(v)
                            ==> v.spec_resource_type() == old(self).spec_out_types()[node][i])
                    &&& final(self).spec_pos() == old(self).spec_pos() + 1
                    &&& final(self).spec_outputs()[node] == produced@
                    &&& forall|d: int|
                        0 <= d < old(self).spec_outputs().len() && d != node ==> final(self).spec_outputs()[d] == old(self).spec_outputs()[d]
                },
                Err(e) => {
                    &&& final(self).spec_pos() == old(self).spec_pos()
                    &&& final(self).spec_outputs() == old(self).spec_outputs()
                    &&& match e {
                        FrameError::NoNodePending => old(self).spec_pos() >= old(self).spec_order().len(),
                        FrameError::WrongOutputCount => old(self).spec_pos() < old(self).spec_order().len() && produced@.len() != old(self).spec_out_types()[
                            old(self).spec_order()[old(self).spec_pos() as int] as int].len(),
                        FrameError::MismatchedOutputType => exists|i: int|
                            0 <= i < produced@.len() && ((#[trigger] produced@[i]) matches Some(
                                v,
                            ) && v.spec_resource_type() != old(self).spec_out_types()[old(self).spec_order()[old(self).spec_pos() as int] as int][i]),
                        _ => false,
                    }
                },
            },
    {
        if self.pos >= self.order.len() {
            return Err(FrameError::NoNodePending);
        }
        let node = self.order[self.pos];
        let expected = self.out_types[node].len();
        if produced.len() != expected {
            return Err(FrameError::WrongOutputCount);
        }
        let n = produced.len();
        let mut i: usize = 0;
        while i < n
            invariant
                *self == *old(self),
                old(self).wf(),
                old(self).spec_pos() < old(self).spec_order().len(),
                node as int == self.spec_order()[self.spec_pos() as int],
                (node as int) < self.spec_out_types().len(),
                n == produced@.len(),
                n == self.spec_out_types()[node as int].len(),
                i <= n,
                forall|j: int|
                    0 <= j < i ==> ((#[trigger] produced@[j]) matches Some(v)
                        ==> v.spec_resource_type() == self.spec_out_types()[node as int][j]),
            decreases n - i,
        {
            match &produced[i] {
                Some(v) => {
                    if v.resource_type() != self.out_types[node][i] {
                        return Err(FrameError::MismatchedOutputType);
                    }
                },
                None => {},
            }
            i = i + 1;
        }
        let ghost outputs_pre = self.spec_outputs();
        self.outputs.set(node, produced);
        self.pos = self.pos + 1;
        proof {
            assert(self.spec_outputs() =~= outputs_pre.update(
                node as int,
                self.outputs@[node as int]@,
            ));
            assert(self.spec_outputs()[node as int] == self.outputs@[node as int]@);
        }
        Ok(())
    }
}

impl RenderGraph {
    /// Starts one frame: resolves the execution order and the producer of
    /// every input slot, with all outputs still unfilled.
    pub fn begin_frame(&self) -> (r: FrameExecutor)
        requires
            self.wf(),
        ensures
            r.wf(),
            r.spec_pos() == 0,
            self.spec_schedule() == Some(node_ints(r.spec_order())),
            r.spec_outputs().len() == self.n_nodes(),
            r.spec_sources().len() == self.n_nodes(),
            forall|d: int|
                0 <= d < self.n_nodes() ==> (#[trigger] r.spec_sources()[d]).len()
                    == self.spec_nodes()[d].inputs@.len(),
            forall|d: int|
                0 <= d < self.n_nodes() ==> (#[trigger] r.spec_out_types()[d]).len()
                    == self.spec_nodes()[d].outputs@.len(),
            forall|d: int, s: int|
                0 <= d < self.n_nodes() && 0 <= s < r.spec_out_types()[d].len()
                    ==> (#[trigger] r.spec_out_types()[d][s]) == self.spec_nodes()[d].outputs@[
                    s].resource_type,
            forall|d: int, s: int|
                0 <= d < self.n_nodes() && 0 <= s < r.spec_sources()[d].len() ==> (
                match #[trigger] r.spec_sources()[d][s] {
                    Some(src) => exists|e: int|
                        0 <= e < self.spec_slot_edges().len()
                            && (#[trigger] self.spec_slot_edges()[e]) == SlotEdge {
                            src_node: src.0,
                            src_slot: src.1,
                            dst_node: d as usize,
                            dst_slot: s as usize,
                        },
                    None => forall|e: int|
                        0 <= e < self.spec_slot_edges().len() ==> !((
                        #[trigger] self.spec_slot_edges()[e]).dst_node == d
                            && self.spec_slot_edges()[e].dst_slot == s),
                }),
            forall|d: int, s: int|
                0 <= d < r.spec_outputs().len() && 0 <= s < r.spec_outputs()[d].len() ==> (
                #[trigger] r.spec_outputs()[d][s]) is None,
    {
        let order = self.topo_order();
        let n = self.node_count();
        let mut sources: Vec<Vec<Option<(usize, usize)>>> = Vec::new();
        let mut out_types: Vec<Vec<ResourceType>> = Vec::new();
        let mut outputs: Vec<Vec<Option<SlotValue>>> = Vec::new();
        let mut d: usize = 0;
        while d < n
            invariant
                self.wf(),
                n == self.n_nodes(),
                d <= n,
                sources@.len() == d,
                out_types@.len() == d,
                outputs@.len() == d,
                forall|k: int|
                    0 <= k < d ==> (#[trigger] sources@[k])@.len() == self.spec_nodes()[
                        k].inputs@.len(),
                forall|k: int|
                    0 <= k < d ==> (#[trigger] out_types@[k])@.len() == self.spec_nodes()[
                        k].outputs@.len(),
                forall|k: int|
                    0 <= k < d ==> (#[trigger] outputs@[k])@.len() == self.spec_nodes()[
                        k].outputs@.len(),
                forall|k: int, s: int|
                    0 <= k < d && 0 <= s < out_types@[k]@.len() ==> (#[trigger] out_types@[
                        k]@[s]) == self.spec_nodes()[k].outputs@[s].resource_type,
                forall|k: int, s: int|
                    0 <= k < d && 0 <= s < outputs@[k]@.len() ==> (#[trigger] outputs@[k]@[
                        s]) is None,
                forall|k: int, s: int|
                    0 <= k < d && 0 <= s < sources@[k]@.len() ==> (
                    match #[trigger] sources@[k]@[s] {
                        Some(src) => exists|e: int|
                            0 <= e < self.spec_slot_edges().len()
                                && (#[trigger] self.spec_slot_edges()[e]) == SlotEdge {
                                src_node: src.0,
                                src_slot: src.1,
                                dst_node: k as usize,
                                dst_slot: s as usize,
                            },
                        None => forall|e: int|
                            0 <= e < self.spec_slot_edges().len() ==> !((
                            #[trigger] self.spec_slot_edges()[e]).dst_node == k
                                && self.spec_slot_edges()[e].dst_slot == s),
                    }),
                forall|k: int, s: int|
                    0 <= k < d && 0 <= s < sources@[k]@.len() ==> (
                    match #[trigger] sources@[k]@[s] {
                        Some(src) => src.0 < self.n_nodes() && (src.1 as int)
                            < self.spec_nodes()[src.0 as int].outputs@.len(),
                        None => true,
                    }),
            decreases n - d,
        {
            let node_sources = self.node_input_sources(d);
            let node_out_types = self.node_output_types(d);
            let node_outputs = none_values(node_out_types.len());
            sources.push(node_sources);
            out_types.push(node_out_types);
            outputs.push(node_outputs);
            d = d + 1;
        }
        let r = FrameExecutor { order, pos: 0, sources, out_types, outputs };
        proof {
            crate::graph::lemma_schedule_respects_edges(self, node_ints(r.spec_order()));
            assert forall|i: int|
                0 <= i < r.spec_order().len() implies ((#[trigger] r.spec_order()[i]) as int)
                < r.spec_outputs().len() by {
                assert(node_ints(r.spec_order()).contains(node_ints(r.spec_order())[i]));
                assert(node_ints(r.spec_order())[i] == r.spec_order()[i] as int);
            }
        }
        r
    }

}

/// A vector of `n` unfilled slots.
fn none_values(n: usize) -> (r: Vec<Option<SlotValue>>)
    ensures
        r@.len() == n,
        forall|i: int| 0 <= i < n ==> r@[i] is None,
{
    let mut r: Vec<Option<SlotValue>> = Vec::new();
    let mut i: usize = 0;
    while i < n
        invariant
            i <= n,
            r@.len() == i,
            forall|j: int| 0 <= j < i ==> r@[j] is None,
        decreases n - i,
    {
        let v = None;
        r.push(v);
        i = i + 1;
    }
    r
}

} // verus!
