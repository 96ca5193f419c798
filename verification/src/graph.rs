//! The render graph: named nodes with typed input and output slots,
//! connected by slot edges (data flow) and ordering edges (pure
//! before/after constraints). The topology is built once at startup;
//! every edge is checked at registration, and an edge that would close a
//! cycle is refused without mutating the graph.

use vstd::prelude::*;
use crate::schedule::{has_cycle, has_edge, kahn, kahn_rec, first_source_from, has_pred_in,
    lemma_kahn_sound, lemma_kahn_complete, lemma_kahn_acyclic};
use crate::slot::{ResourceType, SlotInfo};

verus! {

/// A configuration error while building the graph topology. All of these
/// abort startup: a malformed graph cannot render meaningfully.
#[derive(Clone, Copy, PartialEq, Eq, Structural, Debug)]
pub enum GraphError {
    /// A node with this name is already registered.
    NodeAlreadyExists,
    /// No node with this name is registered.
    UnknownNode,
    /// The source node has no output slot with this name.
    UnknownOutputSlot,
    /// The destination node has no input slot with this name.
    UnknownInputSlot,
    /// The output and input slots carry different resource types.
    MismatchedSlotType,
    /// The input slot is already fed by another slot edge.
    InputAlreadyOccupied,
    /// The edge would close a dependency cycle.
    CycleWouldForm,
}

/// One node of the graph: a named unit of work with its declared slots.
/// The work itself is performed by the collaborator that registered the
/// node; the graph holds only the interface.
#[derive(Debug)]
pub struct GraphNode {
    pub name: String,
    pub inputs: Vec<SlotInfo>,
    pub outputs: Vec<SlotInfo>,
}

/// A directed binding from a producer's output slot to a consumer's
/// input slot.
#[derive(Clone, Copy, PartialEq, Eq, Structural, Debug)]
pub struct SlotEdge {
    pub src_node: usize,
    pub src_slot: usize,
    pub dst_node: usize,
    pub dst_slot: usize,
}

/// The position of the first node named `name`.
pub open spec fn first_node_named(s: Seq<GraphNode>, name: Seq<char>) -> Option<int>
    decreases s.len(),
{
    if s.len() == 0 {
        None
    } else if s[0].name@ == name {
        Some(0)
    } else {
        match first_node_named(s.drop_first(), name) {
            Some(i) => Some(i + 1),
            None => None,
        }
    }
}

/// The position of the first slot named `name`.
pub open spec fn first_slot_named(s: Seq<SlotInfo>, name: Seq<char>) -> Option<int>
    decreases s.len(),
{
    if s.len() == 0 {
        None
    } else if s[0].name@ == name {
        Some(0)
    } else {
        match first_slot_named(s.drop_first(), name) {
            Some(i) => Some(i + 1),
            None => None,
        }
    }
}

proof fn lemma_first_node_named_props(s: Seq<GraphNode>, name: Seq<char>)
    ensures
        match first_node_named(s, name) {
            Some(i) => 0 <= i < s.len() && s[i].name@ == name && forall|j: int|
                0 <= j < i ==> s[j].name@ != name,
            None => forall|j: int| 0 <= j < s.len() ==> s[j].name@ != name,
        },
    decreases s.len(),
{
    if s.len() > 0 && s[0].name@ != name {
        lemma_first_node_named_props(s.drop_first(), name);
        assert forall|j: int| 1 <= j < s.len() implies #[trigger] s[j] == s.drop_first()[j
            - 1] by {}
    }
}

proof fn lemma_first_slot_named_props(s: Seq<SlotInfo>, name: Seq<char>)
    ensures
        match first_slot_named(s, name) {
            Some(i) => 0 <= i < s.len() && s[i].name@ == name && forall|j: int|
                0 <= j < i ==> s[j].name@ != name,
            None => forall|j: int| 0 <= j < s.len() ==> s[j].name@ != name,
        },
    decreases s.len(),
{
    if s.len() > 0 && s[0].name@ != name {
        lemma_first_slot_named_props(s.drop_first(), name);
        assert forall|j: int| 1 <= j < s.len() implies #[trigger] s[j] == s.drop_first()[j
            - 1] by {}
    }
}

pub proof fn lemma_first_node_named_at(s: Seq<GraphNode>, name: Seq<char>, i: int)
    requires
        0 <= i < s.len(),
        s[i].name@ == name,
        forall|j: int| 0 <= j < i ==> s[j].name@ != name,
    ensures
        first_node_named(s, name) == Some(i),
    decreases i,
{
    if i > 0 {
        lemma_first_node_named_at(s.drop_first(), name, i - 1);
    }
}

pub proof fn lemma_first_slot_named_at(s: Seq<SlotInfo>, name: Seq<char>, i: int)
    requires
        0 <= i < s.len(),
        s[i].name@ == name,
        forall|j: int| 0 <= j < i ==> s[j].name@ != name,
    ensures
        first_slot_named(s, name) == Some(i),
    decreases i,
{
    if i > 0 {
        lemma_first_slot_named_at(s.drop_first(), name, i - 1);
    }
}

pub proof fn lemma_first_node_named_none(s: Seq<GraphNode>, name: Seq<char>)
    requires
        forall|j: int| 0 <= j < s.len() ==> s[j].name@ != name,
    ensures
        first_node_named(s, name) is None,
    decreases s.len(),
{
    if s.len() > 0 {
        lemma_first_node_named_none(s.drop_first(), name);
    }
}

pub proof fn lemma_first_slot_named_none(s: Seq<SlotInfo>, name: Seq<char>)
    requires
        forall|j: int| 0 <= j < s.len() ==> s[j].name@ != name,
    ensures
        first_slot_named(s, name) is None,
    decreases s.len(),
{
    if s.len() > 0 {
        lemma_first_slot_named_none(s.drop_first(), name);
    }
}

/// The ordering constraints as integer pairs, for the scheduler.
pub open spec fn spec_dep_edges(s: Seq<(usize, usize)>) -> Seq<(int, int)> {
    s.map_values(|e: (usize, usize)| (e.0 as int, e.1 as int))
}

/// A declarative directed graph of rendering nodes connected through
/// typed resource slots, executed once per frame in a deterministic
/// topological order.
pub struct RenderGraph {
    nodes: Vec<GraphNode>,
    slot_edges: Vec<SlotEdge>,
    deps: Vec<(usize, usize)>,
}

impl RenderGraph {
    /// The registered nodes, in insertion order.
    pub closed spec fn spec_nodes(&self) -> Seq<GraphNode> {
        self.nodes@
    }

    /// The registered slot edges, in insertion order.
    pub closed spec fn spec_slot_edges(&self) -> Seq<SlotEdge> {
        self.slot_edges@
    }

    /// Every ordering constraint (before, after): one per slot edge and
    /// one per explicit ordering edge.
    pub closed spec fn spec_deps(&self) -> Seq<(usize, usize)> {
        self.deps@
    }

    /// How many nodes are registered.
    pub open spec fn n_nodes(&self) -> nat {
        self.spec_nodes().len()
    }

    /// The ordering constraints as the scheduler sees them.
    pub open spec fn dep_edges(&self) -> Seq<(int, int)> {
        spec_dep_edges(self.spec_deps())
    }

    /// The deterministic schedule of this graph, when one exists.
    pub open spec fn spec_schedule(&self) -> Option<Seq<int>> {
        kahn(self.n_nodes() as int, self.dep_edges())
    }

    /// No chain of constraints returns to its starting node.
    pub open spec fn acyclic(&self) -> bool {
        !has_cycle(self.dep_edges())
    }

    /// A registered slot edge joins existing slots of existing nodes, with
    /// equal resource types, and is backed by an ordering constraint.
    pub open spec fn slot_edge_wf(&self, e: SlotEdge) -> bool {
        &&& e.src_node < self.n_nodes()
        &&& e.dst_node < self.n_nodes()
        &&& e.src_slot < self.spec_nodes()[e.src_node as int].outputs@.len()
        &&& e.dst_slot < self.spec_nodes()[e.dst_node as int].inputs@.len()
        &&& self.spec_nodes()[e.src_node as int].outputs@[e.src_slot as int].resource_type
            == self.spec_nodes()[e.dst_node as int].inputs@[e.dst_slot as int].resource_type
        &&& has_edge(self.dep_edges(), e.src_node as int, e.dst_node as int)
    }

    /// The graph invariant: constraints join existing nodes, slot edges
    /// are well-formed and feed each input at most once, node names are
    /// unique, and the graph is acyclic.
    pub open spec fn wf(&self) -> bool {
        &&& forall|i: int|
            0 <= i < self.spec_deps().len() ==> (#[trigger] self.spec_deps()[i]).0
                < self.n_nodes() && self.spec_deps()[i].1 < self.n_nodes()
        &&& forall|i: int|
            0 <= i < self.spec_slot_edges().len() ==> self.slot_edge_wf(
                #[trigger] self.spec_slot_edges()[i],
            )
        &&& forall|i: int, j: int|
            0 <= i < j < self.spec_slot_edges().len() ==> !((#[trigger] self.spec_slot_edges()[i]).dst_node == (#[trigger] self.spec_slot_edges()[j]).dst_node
                && self.spec_slot_edges()[i].dst_slot == self.spec_slot_edges()[j].dst_slot)
        &&& forall|i: int, j: int|
            0 <= i < j < self.n_nodes() ==> (#[trigger] self.spec_nodes()[i]).name@
                != (#[trigger] self.spec_nodes()[j]).name@
        &&& self.acyclic()
    }

    /// An empty graph.
    pub fn new() -> (r: RenderGraph)
        ensures
            r.wf(),
            r.n_nodes() == 0,
            r.spec_slot_edges() == Seq::<SlotEdge>::empty(),
            r.spec_deps() == Seq::<(usize, usize)>::empty(),
    {
        let r = RenderGraph { nodes: Vec::new(), slot_edges: Vec::new(), deps: Vec::new() };
        proof {
            assert(r.spec_slot_edges() =~= Seq::<SlotEdge>::empty());
            assert(r.spec_deps() =~= Seq::<(usize, usize)>::empty());
            if has_cycle(r.dep_edges()) {
                let p = choose|p: Seq<int>|
                    p.len() >= 2 && crate::schedule::is_chain(r.dep_edges(), p) && p[0] == p[p.len() - 1];
                assert(has_edge(r.dep_edges(), p[0], p[1]));
                let e = choose|i: int|
                    0 <= i < r.dep_edges().len() && r.dep_edges()[i] == (p[0], p[1]);
                assert(false);
            }
        }
        r
    }

    /// The index of the node named `name`, if any.
    pub fn node_index(&self, name: &String) -> (r: Option<usize>)
        ensures
            match r {
                Some(i) => first_node_named(self.spec_nodes(), name@) == Some(i as int),
                None => first_node_named(self.spec_nodes(), name@) is None,
            },
    {
        let n = self.nodes.len();
        let mut i: usize = 0;
        while i < n
            invariant
                n == self.spec_nodes().len(),
                i <= n,
                forall|j: int| 0 <= j < i ==> (#[trigger] self.spec_nodes()[j]).name@ != name@,
            decreases n - i,
        {
            if self.nodes[i].name == *name {
                proof {
                    lemma_first_node_named_at(self.spec_nodes(), name@, i as int);
                }
                return Some(i);
            }
            i = i + 1;
        }
        proof {
            lemma_first_node_named_none(self.spec_nodes(), name@);
        }
        None
    }

    /// Registers a node under `name` with the given slots, and returns
    /// its index. Names are unique: a second node under the same name is
    /// refused.
    pub fn add_node(&mut self, name: String, inputs: Vec<SlotInfo>, outputs: Vec<SlotInfo>) -> (r:
        Result<usize, GraphError>)
        requires
            old(self).wf(),
        ensures
            final(self).wf(),
            match r {
                Ok(idx) => {
                    &&& first_node_named(old(self).spec_nodes(), name@) is None
                    &&& idx == old(self).n_nodes()
                    &&& final(self).n_nodes() == old(self).n_nodes() + 1
                    &&& final(self).spec_nodes()[idx as int].name@ == name@
                    &&& final(self).spec_nodes()[idx as int].inputs@ == inputs@
                    &&& final(self).spec_nodes()[idx as int].outputs@ == outputs@
                    &&& forall|i: int|
                        0 <= i < old(self).n_nodes() ==> final(self).spec_nodes()[i] == old(self).spec_nodes()[i]
                    &&& final(self).spec_slot_edges() == old(self).spec_slot_edges()
                    &&& final(self).spec_deps() == old(self).spec_deps()
                },
                Err(e) => {
                    &&& e == GraphError::NodeAlreadyExists
                    &&& first_node_named(old(self).spec_nodes(), name@) is Some
                    &&& final(self).spec_nodes() == old(self).spec_nodes()
                    &&& final(self).spec_slot_edges() == old(self).spec_slot_edges()
                    &&& final(self).spec_deps() == old(self).spec_deps()
                },
            },
    {
        if self.node_index(&name).is_some() {
            return Err(GraphError::NodeAlreadyExists);
        }
        let idx = self.nodes.len();
        let node = GraphNode { name, inputs, outputs };
        self.nodes.push(node);
        proof {
            lemma_first_node_named_props(old(self).spec_nodes(), self.spec_nodes()[idx as int].name@);
            assert forall|i: int, j: int| 0 <= i < j < self.n_nodes() implies (
            #[trigger] self.spec_nodes()[i]).name@ != (#[trigger] self.spec_nodes()[j]).name@ by {
                if j == idx as int {
                    assert(old(self).spec_nodes()[i].name@ != self.spec_nodes()[idx as int].name@);
                }
            }
            assert(self.spec_deps() == old(self).spec_deps());
            assert(self.spec_slot_edges() == old(self).spec_slot_edges());
            assert(self.dep_edges() == old(self).dep_edges());
            assert(self.acyclic());
            assert(forall|i: int, j: int|
                0 <= i < j < self.spec_slot_edges().len() ==> !((
                #[trigger] self.spec_slot_edges()[i]).dst_node == (
                #[trigger] self.spec_slot_edges()[j]).dst_node && self.spec_slot_edges()[
                    i].dst_slot == self.spec_slot_edges()[j].dst_slot));
            assert(forall|i: int|
                0 <= i < self.spec_deps().len() ==> (#[trigger] self.spec_deps()[i]).0
                    < self.n_nodes() && self.spec_deps()[i].1 < self.n_nodes());
            assert forall|i: int|
                0 <= i < self.spec_slot_edges().len() implies self.slot_edge_wf(
                #[trigger] self.spec_slot_edges()[i],
            ) by {
                let e = self.spec_slot_edges()[i];
                assert(e == old(self).spec_slot_edges()[i]);
                assert(old(self).slot_edge_wf(e));
                assert(self.spec_nodes()[e.src_node as int] == old(self).spec_nodes()[
                    e.src_node as int]);
                assert(self.spec_nodes()[e.dst_node as int] == old(self).spec_nodes()[
                    e.dst_node as int]);
            }
        }
        Ok(idx)
    }

    /// Registers a node that declares no slots of its own: a system node
    /// participates only through ordering edges.
    pub fn add_system_node(&mut self, name: String) -> (r: Result<usize, GraphError>)
        requires
            old(self).wf(),
        ensures
            final(self).wf(),
            match r {
                Ok(idx) => {
                    &&& first_node_named(old(self).spec_nodes(), name@) is None
                    &&& idx == old(self).n_nodes()
                    &&& final(self).n_nodes() == old(self).n_nodes() + 1
                    &&& final(self).spec_nodes()[idx as int].name@ == name@
                    &&& final(self).spec_nodes()[idx as int].inputs@.len() == 0
                    &&& final(self).spec_nodes()[idx as int].outputs@.len() == 0
                    &&& forall|i: int|
                        0 <= i < old(self).n_nodes() ==> final(self).spec_nodes()[i] == old(self).spec_nodes()[i]
                    &&& final(self).spec_slot_edges() == old(self).spec_slot_edges()
                    &&& final(self).spec_deps() == old(self).spec_deps()
                },
                Err(e) => {
                    &&& e == GraphError::NodeAlreadyExists
                    &&& first_node_named(old(self).spec_nodes(), name@) is Some
                    &&& final(self).spec_nodes() == old(self).spec_nodes()
                    &&& final(self).spec_slot_edges() == old(self).spec_slot_edges()
                    &&& final(self).spec_deps() == old(self).spec_deps()
                },
            },
    {
        let inputs: Vec<SlotInfo> = Vec::new();
        let outputs: Vec<SlotInfo> = Vec::new();
        self.add_node(name, inputs, outputs)
    }

    /// Whether node `x` occurs in `remaining`.
    fn contains_node(remaining: &Vec<usize>, x: usize) -> (r: bool)
        ensures
            r == node_ints(remaining@).contains(x as int),
    {
        let n = remaining.len();
        let mut i: usize = 0;
        while i < n
            invariant
                n == remaining@.len(),
                i <= n,
                forall|j: int| 0 <= j < i ==> remaining@[j] != x,
            decreases n - i,
        {
            if remaining[i] == x {
                proof {
                    assert(node_ints(remaining@)[i as int] == x as int);
                }
                return true;
            }
            i = i + 1;
        }
        proof {
            if node_ints(remaining@).contains(x as int) {
                let j = choose|j: int|
                    0 <= j < node_ints(remaining@).len() && node_ints(remaining@)[j]
                        == x as int;
                assert(remaining@[j] == x);
            }
        }
        false
    }

    /// Whether node `v` has an incoming constraint from a remaining node.
    fn has_pred(&self, remaining: &Vec<usize>, v: usize) -> (r: bool)
        ensures
            r == has_pred_in(self.dep_edges(), node_ints(remaining@), v as int),
    {
        let m = self.deps.len();
        let mut d: usize = 0;
        while d < m
            invariant
                m == self.spec_deps().len(),
                d <= m,
                forall|e: int|
                    0 <= e < d ==> !((#[trigger] self.spec_deps()[e]).1 == v && node_ints(
                        remaining@,
                    ).contains(self.spec_deps()[e].0 as int)),
            decreases m - d,
        {
            let dep = self.deps[d];
            if dep.1 == v && Self::contains_node(remaining, dep.0) {
                proof {
                    let j = choose|j: int|
                        0 <= j < node_ints(remaining@).len() && node_ints(remaining@)[j]
                            == dep.0 as int;
                    assert(self.dep_edges()[d as int] == (dep.0 as int, dep.1 as int));
                    assert(has_edge(self.dep_edges(), node_ints(remaining@)[j], v as int));
                }
                return true;
            }
            d = d + 1;
        }
        proof {
            if has_pred_in(self.dep_edges(), node_ints(remaining@), v as int) {
                let j = choose|j: int|
                    0 <= j < node_ints(remaining@).len() && has_edge(
                        self.dep_edges(),
                        #[trigger] node_ints(remaining@)[j],
                        v as int,
                    );
                let e = choose|e: int|
                    0 <= e < self.dep_edges().len() && self.dep_edges()[e] == (
                        node_ints(remaining@)[j],
                        v as int,
                    );
                assert(self.dep_edges()[e] == (
                    self.spec_deps()[e].0 as int,
                    self.spec_deps()[e].1 as int,
                ));
                assert(self.spec_deps()[e].1 == v);
                assert(node_ints(remaining@).contains(self.spec_deps()[e].0 as int));
                assert(false);
            }
        }
        false
    }

    /// The position of the first remaining node with no remaining
    /// predecessor.
    fn find_source(&self, remaining: &Vec<usize>) -> (r: Option<usize>)
        ensures
            match r {
                Some(p) => p < remaining@.len() && first_source_from(
                    self.dep_edges(),
                    node_ints(remaining@),
                    0,
                ) == Some(p as int),
                None => first_source_from(self.dep_edges(), node_ints(remaining@), 0) is None,
            },
    {
        let n = remaining.len();
        let mut p: usize = 0;
        while p < n
            invariant
                n == remaining@.len(),
                p <= n,
                first_source_from(self.dep_edges(), node_ints(remaining@), 0)
                    == first_source_from(self.dep_edges(), node_ints(remaining@), p as int),
            decreases n - p,
        {
            if !self.has_pred(remaining, remaining[p]) {
                proof {
                    assert(node_ints(remaining@)[p as int] == remaining@[p as int] as int);
                    assert(first_source_from(self.dep_edges(), node_ints(remaining@), p as int)
                        == Some(p as int));
                }
                return Some(p);
            }
            proof {
                assert(node_ints(remaining@)[p as int] == remaining@[p as int] as int);
                assert(first_source_from(self.dep_edges(), node_ints(remaining@), p as int)
                    == first_source_from(
                    self.dep_edges(),
                    node_ints(remaining@),
                    p as int + 1,
                ));
            }
            p = p + 1;
        }
        None
    }

    /// The deterministic schedule of the graph, or `None` when the
    /// constraints cannot be topologically ordered.
    pub fn compute_order(&self) -> (r: Option<Vec<usize>>)
        ensures
            match r {
                Some(ord) => self.spec_schedule() == Some(node_ints(ord@)),
                None => self.spec_schedule() is None,
            },
    {
        let n = self.nodes.len();
        let mut remaining: Vec<usize> = Vec::new();
        let mut k: usize = 0;
        while k < n
            invariant
                k <= n,
                remaining@.len() == k,
                forall|j: int| 0 <= j < k ==> remaining@[j] == j,
            decreases n - k,
        {
            remaining.push(k);
            k = k + 1;
        }
        proof {
            assert(node_ints(remaining@) =~= Seq::new(self.n_nodes(), |i: int| i));
        }
        let mut ord: Vec<usize> = Vec::new();
        while remaining.len() > 0
            invariant
                match kahn_rec(self.dep_edges(), node_ints(remaining@)) {
                    Some(rest) => self.spec_schedule() == Some(node_ints(ord@) + rest),
                    None => self.spec_schedule() is None,
                },
            decreases remaining@.len(),
        {
            let ghost rem_pre = node_ints(remaining@);
            let ghost ord_pre = node_ints(ord@);
            match self.find_source(&remaining) {
                Some(p) => {
                    let v = remaining[p];
                    ord.push(v);
                    remaining.remove(p);
                    proof {
                        assert(node_ints(remaining@) =~= rem_pre.remove(p as int));
                        assert(node_ints(ord@) =~= ord_pre.push(v as int));
                        assert(rem_pre[p as int] == v as int);
                        match kahn_rec(self.dep_edges(), rem_pre.remove(p as int)) {
                            Some(rest) => {
                                assert(kahn_rec(self.dep_edges(), rem_pre) == Some(
                                    seq![v as int] + rest,
                                ));
                                assert(ord_pre + (seq![v as int] + rest) =~= node_ints(ord@)
                                    + rest);
                            },
                            None => {
                                assert(kahn_rec(self.dep_edges(), rem_pre) is None);
                            },
                        }
                    }
                },
                None => {
                    proof {
                        assert(kahn_rec(self.dep_edges(), rem_pre) is None);
                    }
                    return None;
                },
            }
        }
        proof {
            assert(node_ints(remaining@).len() == 0);
            assert(kahn_rec(self.dep_edges(), node_ints(remaining@)) == Some(Seq::<
                int,
            >::empty()));
            assert(node_ints(ord@) + Seq::<int>::empty() =~= node_ints(ord@));
        }
        Some(ord)
    }
}

impl RenderGraph {
    /// The index of the first slot named `name` among `slots`.
    fn slot_index(slots: &Vec<SlotInfo>, name: &String) -> (r: Option<usize>)
        ensures
            match r {
                Some(i) => first_slot_named(slots@, name@) == Some(i as int),
                None => first_slot_named(slots@, name@) is None,
            },
    {
        let n = slots.len();
        let mut i: usize = 0;
        while i < n
            invariant
                n == slots@.len(),
                i <= n,
                forall|j: int| 0 <= j < i ==> (#[trigger] slots@[j]).name@ != name@,
            decreases n - i,
        {
            if slots[i].name == *name {
                proof {
                    lemma_first_slot_named_at(slots@, name@, i as int);
                }
                return Some(i);
            }
            i = i + 1;
        }
        proof {
            lemma_first_slot_named_none(slots@, name@);
        }
        None
    }

    /// Adds the pure ordering constraint `before` runs before `after`.
    /// A constraint that would close a cycle is refused and the graph is
    /// left as it was.
    pub fn add_node_edge(&mut self, before: &String, after: &String) -> (r: Result<
        (),
        GraphError,
    >)
        requires
            old(self).wf(),
        ensures
            final(self).wf(),
            final(self).spec_nodes() == old(self).spec_nodes(),
            final(self).spec_slot_edges() == old(self).spec_slot_edges(),
            match r {
                Ok(_) => {
                    &&& first_node_named(old(self).spec_nodes(), before@) is Some
                    &&& first_node_named(old(self).spec_nodes(), after@) is Some
                    &&& final(self).spec_deps() == old(self).spec_deps().push(
                        (
                            first_node_named(old(self).spec_nodes(), before@)->Some_0 as usize,
                            first_node_named(old(self).spec_nodes(), after@)->Some_0 as usize,
                        ),
                    )
                    &&& final(self).acyclic()
                },
                Err(e) => {
                    &&& final(self).spec_deps() == old(self).spec_deps()
                    &&& if e == GraphError::CycleWouldForm {
                        &&& first_node_named(old(self).spec_nodes(), before@) is Some
                        &&& first_node_named(old(self).spec_nodes(), after@) is Some
                        &&& has_cycle(
                            old(self).dep_edges().push(
                                (
                                    first_node_named(old(self).spec_nodes(), before@)->Some_0,
                                    first_node_named(old(self).spec_nodes(), after@)->Some_0,
                                ),
                            ),
                        )
                    } else {
                        &&& e == GraphError::UnknownNode
                        &&& (first_node_named(old(self).spec_nodes(), before@) is None
                            || first_node_named(old(self).spec_nodes(), after@) is None)
                    }
                },
            },
    {
        let b = match self.node_index(before) {
            Some(b) => b,
            None => {
                return Err(GraphError::UnknownNode);
            },
        };
        let a = match self.node_index(after) {
            Some(a) => a,
            None => {
                return Err(GraphError::UnknownNode);
            },
        };
        proof {
            lemma_first_node_named_props(self.spec_nodes(), before@);
            lemma_first_node_named_props(self.spec_nodes(), after@);
        }
        self.push_dep_checked(b, a)
    }

    /// Appends the constraint `(b, a)` unless it would close a cycle.
    fn push_dep_checked(&mut self, b: usize, a: usize) -> (r: Result<(), GraphError>)
        requires
            old(self).wf(),
            b < old(self).n_nodes(),
            a < old(self).n_nodes(),
        ensures
            final(self).wf(),
            final(self).spec_nodes() == old(self).spec_nodes(),
            final(self).spec_slot_edges() == old(self).spec_slot_edges(),
            match r {
                Ok(_) => final(self).spec_deps() == old(self).spec_deps().push((b, a)) && final(self).acyclic(),
                Err(e) => {
                    &&& e == GraphError::CycleWouldForm
                    &&& final(self).spec_deps() == old(self).spec_deps()
                    &&& has_cycle(old(self).dep_edges().push((b as int, a as int)))
                },
            },
    {
        let pair = (b, a);
        self.deps.push(pair);
        proof {
            assert(self.dep_edges() =~= old(self).dep_edges().push((b as int, a as int)));
        }
        match self.compute_order() {
            Some(ord) => {
                proof {
                    assert(self.spec_schedule() == Some(node_ints(ord@)));
                    lemma_kahn_acyclic(
                        self.n_nodes() as int,
                        self.dep_edges(),
                        node_ints(ord@),
                    );
                    assert forall|i: int|
                        0 <= i < self.spec_slot_edges().len() implies self.slot_edge_wf(
                        #[trigger] self.spec_slot_edges()[i],
                    ) by {
                        let e = self.spec_slot_edges()[i];
                        assert(e == old(self).spec_slot_edges()[i]);
                        assert(old(self).slot_edge_wf(e));
                        let w = choose|w: int|
                            0 <= w < old(self).dep_edges().len() && old(self).dep_edges()[w] == (
                                e.src_node as int,
                                e.dst_node as int,
                            );
                        assert(self.dep_edges()[w] == (e.src_node as int, e.dst_node as int));
                    }
                    lemma_wf_parts(old(self), self, b, a);
                }
                Ok(())
            },
            None => {
                self.deps.pop();
                proof {
                    assert(self.spec_deps() =~= old(self).spec_deps());
                    assert(self.dep_edges() =~= old(self).dep_edges());
                    let all = Seq::new(self.n_nodes(), |i: int| i);
                    assert(all.no_duplicates());
                    if !has_cycle(old(self).dep_edges().push((b as int, a as int))) {
                        lemma_kahn_complete(
                            old(self).dep_edges().push((b as int, a as int)),
                            all,
                        );
                        assert(false);
                    }
                    assert forall|i: int|
                        0 <= i < self.spec_slot_edges().len() implies self.slot_edge_wf(
                        #[trigger] self.spec_slot_edges()[i],
                    ) by {
                        let e = self.spec_slot_edges()[i];
                        assert(e == old(self).spec_slot_edges()[i]);
                        assert(old(self).slot_edge_wf(e));
                    }
                    lemma_wf_parts(old(self), self, b, a);
                }
                Err(GraphError::CycleWouldForm)
            },
        }
    }

    /// How `add_slot_edge` resolves its arguments: the first failing
    /// check, in the order source node, destination node, output slot,
    /// input slot, type agreement, input occupancy; or the edge itself.
    pub open spec fn spec_resolve_slot_edge(
        &self,
        sn: Seq<char>,
        ss: Seq<char>,
        dn: Seq<char>,
        ds: Seq<char>,
    ) -> Result<SlotEdge, GraphError> {
        match first_node_named(self.spec_nodes(), sn) {
            None => Err(GraphError::UnknownNode),
            Some(src) => match first_node_named(self.spec_nodes(), dn) {
                None => Err(GraphError::UnknownNode),
                Some(dst) => match first_slot_named(self.spec_nodes()[src].outputs@, ss) {
                    None => Err(GraphError::UnknownOutputSlot),
                    Some(os) => match first_slot_named(self.spec_nodes()[dst].inputs@, ds) {
                        None => Err(GraphError::UnknownInputSlot),
                        Some(di) => if self.spec_nodes()[src].outputs@[os].resource_type
                            != self.spec_nodes()[dst].inputs@[di].resource_type {
                            Err(GraphError::MismatchedSlotType)
                        } else if exists|i: int|
                            0 <= i < self.spec_slot_edges().len()
                                && (#[trigger] self.spec_slot_edges()[i]).dst_node as int == dst
                                && self.spec_slot_edges()[i].dst_slot as int == di {
                            Err(GraphError::InputAlreadyOccupied)
                        } else {
                            Ok(
                                SlotEdge {
                                    src_node: src as usize,
                                    src_slot: os as usize,
                                    dst_node: dst as usize,
                                    dst_slot: di as usize,
                                },
                            )
                        },
                    },
                },
            },
        }
    }

    /// Binds the output slot `output_slot` of node `output_node` to the
    /// input slot `input_slot` of node `input_node`. The edge is
    /// type-checked, each input accepts at most one edge, and an edge
    /// that would close a cycle is refused with the graph left as it was.
    pub fn add_slot_edge(
        &mut self,
        output_node: &String,
        output_slot: &String,
        input_node: &String,
        input_slot: &String,
    ) -> (r: Result<(), GraphError>)
        requires
            old(self).wf(),
        ensures
            final(self).wf(),
            final(self).spec_nodes() == old(self).spec_nodes(),
            match r {
                Ok(_) => {
                    &&& old(self).spec_resolve_slot_edge(
                        output_node@,
                        output_slot@,
                        input_node@,
                        input_slot@,
                    ) is Ok
                    &&& {
                        let e = old(self).spec_resolve_slot_edge(
                            output_node@,
                            output_slot@,
                            input_node@,
                            input_slot@,
                        )->Ok_0;
                        &&& final(self).spec_slot_edges() == old(self).spec_slot_edges().push(e)
                        &&& final(self).spec_deps() == old(self).spec_deps().push(
                            (e.src_node, e.dst_node),
                        )
                        &&& final(self).acyclic()
                    }
                },
                Err(e) => {
                    &&& final(self).spec_slot_edges() == old(self).spec_slot_edges()
                    &&& final(self).spec_deps() == old(self).spec_deps()
                    &&& if e == GraphError::CycleWouldForm {
                        &&& old(self).spec_resolve_slot_edge(
                            output_node@,
                            output_slot@,
                            input_node@,
                            input_slot@,
                        ) is Ok
                        &&& {
                            let se = old(self).spec_resolve_slot_edge(
                                output_node@,
                                output_slot@,
                                input_node@,
                                input_slot@,
                            )->Ok_0;
                            has_cycle(
                                old(self).dep_edges().push(
                                    (se.src_node as int, se.dst_node as int),
                                ),
                            )
                        }
                    } else {
                        old(self).spec_resolve_slot_edge(
                            output_node@,
                            output_slot@,
                            input_node@,
                            input_slot@,
                        ) == Err::<SlotEdge, GraphError>(e)
                    }
                },
            },
    {
        let src = match self.node_index(output_node) {
            Some(i) => i,
            None => {
                return Err(GraphError::UnknownNode);
            },
        };
        let dst = match self.node_index(input_node) {
            Some(i) => i,
            None => {
                return Err(GraphError::UnknownNode);
            },
        };
        proof {
            lemma_first_node_named_props(self.spec_nodes(), output_node@);
            lemma_first_node_named_props(self.spec_nodes(), input_node@);
        }
        let os = match Self::slot_index(&self.nodes[src].outputs, output_slot) {
            Some(i) => i,
            None => {
                return Err(GraphError::UnknownOutputSlot);
            },
        };
        let di = match Self::slot_index(&self.nodes[dst].inputs, input_slot) {
            Some(i) => i,
            None => {
                return Err(GraphError::UnknownInputSlot);
            },
        };
        proof {
            lemma_first_slot_named_props(self.spec_nodes()[src as int].outputs@, output_slot@);
            lemma_first_slot_named_props(self.spec_nodes()[dst as int].inputs@, input_slot@);
        }
        if self.nodes[src].outputs[os].resource_type != self.nodes[dst].inputs[di].resource_type {
            return Err(GraphError::MismatchedSlotType);
        }
        let m = self.slot_edges.len();
        let mut i: usize = 0;
        while i < m
            invariant
                *self == *old(self),
                old(self).wf(),
                m == self.spec_slot_edges().len(),
                i <= m,
                src < self.n_nodes(),
                dst < self.n_nodes(),
                first_node_named(self.spec_nodes(), output_node@) == Some(src as int),
                first_node_named(self.spec_nodes(), input_node@) == Some(dst as int),
                first_slot_named(self.spec_nodes()[src as int].outputs@, output_slot@) == Some(
                    os as int,
                ),
                first_slot_named(self.spec_nodes()[dst as int].inputs@, input_slot@) == Some(
                    di as int,
                ),
                (os as int) < self.spec_nodes()[src as int].outputs@.len(),
                (di as int) < self.spec_nodes()[dst as int].inputs@.len(),
                self.spec_nodes()[src as int].outputs@[os as int].resource_type
                    == self.spec_nodes()[dst as int].inputs@[di as int].resource_type,
                forall|j: int|
                    0 <= j < i ==> !((#[trigger] self.spec_slot_edges()[j]).dst_node == dst
                        && self.spec_slot_edges()[j].dst_slot == di),
            decreases m - i,
        {
            let e = self.slot_edges[i];
            if e.dst_node == dst && e.dst_slot == di {
                proof {
                    assert((self.spec_slot_edges()[i as int]).dst_node as int == dst as int
                        && self.spec_slot_edges()[i as int].dst_slot as int == di as int);
                    assert(self.spec_resolve_slot_edge(
                        output_node@,
                        output_slot@,
                        input_node@,
                        input_slot@,
                    ) == Err::<SlotEdge, GraphError>(GraphError::InputAlreadyOccupied));
                }
                return Err(GraphError::InputAlreadyOccupied);
            }
            i = i + 1;
        }
        let edge = SlotEdge { src_node: src, src_slot: os, dst_node: dst, dst_slot: di };
        let ghost pre = *self;
        self.slot_edges.push(edge);
        proof {
            assert(pre.spec_resolve_slot_edge(
                output_node@,
                output_slot@,
                input_node@,
                input_slot@,
            ) == Ok::<SlotEdge, GraphError>(edge));
        }
        let dep_result = self.push_dep_checked_after_slot(src, dst);
        match dep_result {
            Ok(_) => {
                proof {
                    assert forall|i2: int|
                        0 <= i2 < self.spec_slot_edges().len() implies self.slot_edge_wf(
                        #[trigger] self.spec_slot_edges()[i2],
                    ) by {
                        let e2 = self.spec_slot_edges()[i2];
                        if i2 < pre.spec_slot_edges().len() {
                            assert(e2 == pre.spec_slot_edges()[i2]);
                            assert(pre.slot_edge_wf(e2));
                            let w = choose|w: int|
                                0 <= w < pre.dep_edges().len() && pre.dep_edges()[w] == (
                                    e2.src_node as int,
                                    e2.dst_node as int,
                                );
                            assert(self.dep_edges()[w] == (
                                e2.src_node as int,
                                e2.dst_node as int,
                            ));
                        } else {
                            assert(e2 == edge);
                            let w = self.dep_edges().len() - 1;
                            assert(self.dep_edges()[w] == (
                                edge.src_node as int,
                                edge.dst_node as int,
                            ));
                        }
                    }
                    assert forall|i2: int, j2: int|
                        0 <= i2 < j2 < self.spec_slot_edges().len() implies !((
                    #[trigger] self.spec_slot_edges()[i2]).dst_node == (
                    #[trigger] self.spec_slot_edges()[j2]).dst_node && self.spec_slot_edges()[
                        i2].dst_slot == self.spec_slot_edges()[j2].dst_slot) by {
                        if j2 < pre.spec_slot_edges().len() - 1 + 1 {
                            assert(pre.spec_slot_edges()[i2] == self.spec_slot_edges()[i2]);
                            assert(pre.spec_slot_edges()[j2] == self.spec_slot_edges()[j2]);
                        } else {
                            assert(self.spec_slot_edges()[j2] == edge);
                            assert(self.spec_slot_edges()[i2] == pre.spec_slot_edges()[i2]);
                        }
                    }
                }
                Ok(())
            },
            Err(e) => {
                self.slot_edges.pop();
                proof {
                    assert(self.spec_slot_edges() =~= pre.spec_slot_edges());
                    assert forall|i2: int|
                        0 <= i2 < self.spec_slot_edges().len() implies self.slot_edge_wf(
                        #[trigger] self.spec_slot_edges()[i2],
                    ) by {
                        let e2 = self.spec_slot_edges()[i2];
                        assert(e2 == pre.spec_slot_edges()[i2]);
                        assert(pre.slot_edge_wf(e2));
                    }
                }
                Err(e)
            },
        }
    }

    /// Appends the constraint `(b, a)` unless it would close a cycle,
    /// while the last slot edge is still waiting for its constraint.
    fn push_dep_checked_after_slot(&mut self, b: usize, a: usize) -> (r: Result<
        (),
        GraphError,
    >)
        requires
            b < old(self).n_nodes(),
            a < old(self).n_nodes(),
            forall|i: int|
                0 <= i < old(self).spec_deps().len() ==> (#[trigger] old(self).spec_deps()[
                    i]).0 < old(self).n_nodes() && old(self).spec_deps()[i].1 < old(self).n_nodes(),
            old(self).acyclic(),
        ensures
            final(self).spec_nodes() == old(self).spec_nodes(),
            final(self).spec_slot_edges() == old(self).spec_slot_edges(),
            forall|i: int|
                0 <= i < final(self).spec_deps().len() ==> (#[trigger] final(self).spec_deps()[
                    i]).0 < final(self).n_nodes() && final(self).spec_deps()[i].1 < final(self).n_nodes(),
            match r {
                Ok(_) => final(self).spec_deps() == old(self).spec_deps().push((b, a)) && final(self).acyclic(),
                Err(e) => {
                    &&& e == GraphError::CycleWouldForm
                    &&& final(self).spec_deps() == old(self).spec_deps()
                    &&& final(self).acyclic()
                    &&& has_cycle(old(self).dep_edges().push((b as int, a as int)))
                },
            },
    {
        let pair = (b, a);
        self.deps.push(pair);
        proof {
            assert(self.dep_edges() =~= old(self).dep_edges().push((b as int, a as int)));
        }
        match self.compute_order() {
            Some(ord) => {
                proof {
                    lemma_kahn_acyclic(
                        self.n_nodes() as int,
                        self.dep_edges(),
                        node_ints(ord@),
                    );
                }
                Ok(())
            },
            None => {
                self.deps.pop();
                proof {
                    assert(self.spec_deps() =~= old(self).spec_deps());
                    assert(self.dep_edges() =~= old(self).dep_edges());
                    let all = Seq::new(self.n_nodes(), |i: int| i);
                    assert(all.no_duplicates());
                    if !has_cycle(old(self).dep_edges().push((b as int, a as int))) {
                        lemma_kahn_complete(
                            old(self).dep_edges().push((b as int, a as int)),
                            all,
                        );
                        assert(false);
                    }
                }
                Err(GraphError::CycleWouldForm)
            },
        }
    }

    /// How many nodes are registered.
    pub fn node_count(&self) -> (r: usize)
        ensures
            r == self.n_nodes(),
    {
        self.nodes.len()
    }

    /// For each input slot of node `d`, the producer `(node, output
    /// slot)` bound to it by a slot edge, if any.
    pub fn node_input_sources(&self, d: usize) -> (r: Vec<Option<(usize, usize)>>)
        requires
            self.wf(),
            d < self.n_nodes(),
        ensures
            r@.len() == self.spec_nodes()[d as int].inputs@.len(),
            forall|s: int|
                0 <= s < r@.len() ==> (match #[trigger] r@[s] {
                    Some(src) => exists|e: int|
                        0 <= e < self.spec_slot_edges().len()
                            && (#[trigger] self.spec_slot_edges()[e]) == SlotEdge {
                            src_node: src.0,
                            src_slot: src.1,
                            dst_node: d,
                            dst_slot: s as usize,
                        },
                    None => forall|e: int|
                        0 <= e < self.spec_slot_edges().len() ==> !((
                        #[trigger] self.spec_slot_edges()[e]).dst_node == d
                            && self.spec_slot_edges()[e].dst_slot == s),
                }),
            forall|s: int|
                0 <= s < r@.len() ==> (match #[trigger] r@[s] {
                    Some(src) => src.0 < self.n_nodes() && (src.1 as int) < self.spec_nodes()[
                        src.0 as int].outputs@.len(),
                    None => true,
                }),
    {
        let n_in = self.nodes[d].inputs.len();
        let m = self.slot_edges.len();
        let mut r: Vec<Option<(usize, usize)>> = Vec::new();
        let mut s: usize = 0;
        while s < n_in
            invariant
                self.wf(),
                d < self.n_nodes(),
                n_in == self.spec_nodes()[d as int].inputs@.len(),
                m == self.spec_slot_edges().len(),
                s <= n_in,
                r@.len() == s,
                forall|t: int|
                    0 <= t < s ==> (match #[trigger] r@[t] {
                        Some(src) => exists|e: int|
                            0 <= e < self.spec_slot_edges().len()
                                && (#[trigger] self.spec_slot_edges()[e]) == SlotEdge {
                                src_node: src.0,
                                src_slot: src.1,
                                dst_node: d,
                                dst_slot: t as usize,
                            },
                        None => forall|e: int|
                            0 <= e < self.spec_slot_edges().len() ==> !((
                            #[trigger] self.spec_slot_edges()[e]).dst_node == d
                                && self.spec_slot_edges()[e].dst_slot == t),
                    }),
                forall|t: int|
                    0 <= t < s ==> (match #[trigger] r@[t] {
                        Some(src) => src.0 < self.n_nodes() && (src.1 as int)
                            < self.spec_nodes()[src.0 as int].outputs@.len(),
                        None => true,
                    }),
            decreases n_in - s,
        {
            let found = self.find_input_source(d, s);
            r.push(found);
            s = s + 1;
        }
        r
    }

    /// The producer bound by a slot edge to input slot `s` of node `d`,
    /// if any.
    fn find_input_source(&self, d: usize, s: usize) -> (r: Option<(usize, usize)>)
        requires
            self.wf(),
            d < self.n_nodes(),
        ensures
            match r {
                Some(src) => {
                    &&& exists|e: int|
                        0 <= e < self.spec_slot_edges().len()
                            && (#[trigger] self.spec_slot_edges()[e]) == SlotEdge {
                            src_node: src.0,
                            src_slot: src.1,
                            dst_node: d,
                            dst_slot: s,
                        }
                    &&& src.0 < self.n_nodes()
                    &&& (src.1 as int) < self.spec_nodes()[src.0 as int].outputs@.len()
                },
                None => forall|e: int|
                    0 <= e < self.spec_slot_edges().len() ==> !((
                    #[trigger] self.spec_slot_edges()[e]).dst_node == d
                        && self.spec_slot_edges()[e].dst_slot == s),
            },
    {
        let m = self.slot_edges.len();
        let mut e: usize = 0;
        while e < m
            invariant
                self.wf(),
                d < self.n_nodes(),
                m == self.spec_slot_edges().len(),
                e <= m,
                forall|f: int|
                    0 <= f < e ==> !((#[trigger] self.spec_slot_edges()[f]).dst_node == d
                        && self.spec_slot_edges()[f].dst_slot == s),
            decreases m - e,
        {
            let edge = self.slot_edges[e];
            if edge.dst_node == d && edge.dst_slot == s {
                proof {
                    assert(self.slot_edge_wf(self.spec_slot_edges()[e as int]));
                    assert(self.spec_slot_edges()[e as int] == SlotEdge {
                        src_node: edge.src_node,
                        src_slot: edge.src_slot,
                        dst_node: d,
                        dst_slot: s,
                    });
                }
                return Some((edge.src_node, edge.src_slot));
            }
            e = e + 1;
        }
        None
    }

    /// The declared resource type of each output slot of node `d`.
    pub fn node_output_types(&self, d: usize) -> (r: Vec<ResourceType>)
        requires
            d < self.n_nodes(),
        ensures
            r@.len() == self.spec_nodes()[d as int].outputs@.len(),
            forall|s: int|
                0 <= s < r@.len() ==> #[trigger] r@[s] == self.spec_nodes()[d as int].outputs@[
                    s].resource_type,
    {
        let outs = &self.nodes[d].outputs;
        let n = outs.len();
        let mut r: Vec<ResourceType> = Vec::new();
        let mut s: usize = 0;
        while s < n
            invariant
                d < self.spec_nodes().len(),
                outs == &self.nodes@[d as int].outputs,
                n == self.spec_nodes()[d as int].outputs@.len(),
                s <= n,
                r@.len() == s,
                forall|t: int|
                    0 <= t < s ==> #[trigger] r@[t] == self.spec_nodes()[d as int].outputs@[
                        t].resource_type,
            decreases n - s,
        {
            let ty = outs[s].resource_type;
            r.push(ty);
            s = s + 1;
        }
        r
    }

    /// The deterministic topological order the frame executes in. The
    /// graph invariant guarantees it exists.
    pub fn topo_order(&self) -> (r: Vec<usize>)
        requires
            self.wf(),
        ensures
            self.spec_schedule() == Some(node_ints(r@)),
    {
        match self.compute_order() {
            Some(v) => v,
            None => {
                proof {
                    let all = Seq::new(self.n_nodes(), |i: int| i);
                    assert(all.no_duplicates());
                    lemma_kahn_complete(self.dep_edges(), all);
                    assert(false);
                }
                vstd::pervasive::unreached()
            },
        }
    }
}

/// For any acyclic constraint set, the deterministic schedule exists.
/// Which schedule it is depends only on the graph, hence only on the
/// insertion order of nodes and edges.
pub proof fn lemma_acyclic_graph_schedulable(g: &RenderGraph)
    requires
        g.acyclic(),
    ensures
        g.spec_schedule() is Some,
{
    let all = Seq::new(g.n_nodes(), |i: int| i);
    assert(all.no_duplicates());
    lemma_kahn_complete(g.dep_edges(), all);
}

/// The schedule lists every node exactly once, and every ordering
/// constraint between scheduled nodes points forward in it.
pub proof fn lemma_schedule_respects_edges(g: &RenderGraph, ord: Seq<int>)
    requires
        g.spec_schedule() == Some(ord),
    ensures
        ord.len() == g.n_nodes(),
        ord.no_duplicates(),
        forall|v: int| ord.contains(v) == (0 <= v < g.n_nodes()),
        forall|i: int, j: int|
            0 <= i < ord.len() && 0 <= j < ord.len() && has_edge(
                g.dep_edges(),
                #[trigger] ord[i],
                #[trigger] ord[j],
            ) ==> i < j,
{
    let all = Seq::new(g.n_nodes(), |i: int| i);
    assert(all.no_duplicates());
    lemma_kahn_sound(g.dep_edges(), all, ord);
    assert forall|v: int| ord.contains(v) == (0 <= v < g.n_nodes()) by {
        if 0 <= v < g.n_nodes() {
            assert(all[v] == v);
            assert(all.contains(v));
        }
        if all.contains(v) {
            let i = choose|i: int| 0 <= i < all.len() && all[i] == v;
        }
    }
}

/// A node list as the scheduler's integers.
pub open spec fn node_ints(s: Seq<usize>) -> Seq<int> {
    s.map_values(|x: usize| x as int)
}

/// Carries the structural invariant conjuncts that do not involve the
/// cycle check from `pre` to `post`, when `post` differs from `pre` by at
/// most the appended constraint `(b, a)`.
proof fn lemma_wf_parts(pre: &RenderGraph, post: &RenderGraph, b: usize, a: usize)
    requires
        forall|i: int|
            0 <= i < pre.spec_deps().len() ==> (#[trigger] pre.spec_deps()[i]).0 < pre.n_nodes()
                && pre.spec_deps()[i].1 < pre.n_nodes(),
        forall|i: int, j: int|
            0 <= i < j < pre.spec_slot_edges().len() ==> !((#[trigger] pre.spec_slot_edges()[
                i]).dst_node == (#[trigger] pre.spec_slot_edges()[j]).dst_node
                && pre.spec_slot_edges()[i].dst_slot == pre.spec_slot_edges()[j].dst_slot),
        forall|i: int, j: int|
            0 <= i < j < pre.n_nodes() ==> (#[trigger] pre.spec_nodes()[i]).name@ != (
            #[trigger] pre.spec_nodes()[j]).name@,
        b < pre.n_nodes(),
        a < pre.n_nodes(),
        post.spec_nodes() == pre.spec_nodes(),
        post.spec_slot_edges() == pre.spec_slot_edges(),
        post.spec_deps() == pre.spec_deps() || post.spec_deps() == pre.spec_deps().push((b, a)),
    ensures
        forall|i: int|
            0 <= i < post.spec_deps().len() ==> (#[trigger] post.spec_deps()[i]).0
                < post.n_nodes() && post.spec_deps()[i].1 < post.n_nodes(),
        forall|i: int, j: int|
            0 <= i < j < post.spec_slot_edges().len() ==> !((#[trigger] post.spec_slot_edges()[
                i]).dst_node == (#[trigger] post.spec_slot_edges()[j]).dst_node
                && post.spec_slot_edges()[i].dst_slot == post.spec_slot_edges()[j].dst_slot),
        forall|i: int, j: int|
            0 <= i < j < post.n_nodes() ==> (#[trigger] post.spec_nodes()[i]).name@ != (
            #[trigger] post.spec_nodes()[j]).name@,
{
    assert forall|i: int|
        0 <= i < post.spec_deps().len() implies (#[trigger] post.spec_deps()[i]).0
        < post.n_nodes() && post.spec_deps()[i].1 < post.n_nodes() by {
        if i < pre.spec_deps().len() {
            assert(post.spec_deps()[i] == pre.spec_deps()[i]);
        } else {
            assert(post.spec_deps()[i] == (b, a));
        }
    }
    assert forall|i: int, j: int|
        0 <= i < j < post.spec_slot_edges().len() implies !((
    #[trigger] post.spec_slot_edges()[i]).dst_node == (
    #[trigger] post.spec_slot_edges()[j]).dst_node && post.spec_slot_edges()[i].dst_slot
        == post.spec_slot_edges()[j].dst_slot) by {
        assert(post.spec_slot_edges()[i] == pre.spec_slot_edges()[i]);
        assert(post.spec_slot_edges()[j] == pre.spec_slot_edges()[j]);
    }
    assert forall|i: int, j: int|
        0 <= i < j < post.n_nodes() implies (#[trigger] post.spec_nodes()[i]).name@ != (
    #[trigger] post.spec_nodes()[j]).name@ by {
        assert(post.spec_nodes()[i] == pre.spec_nodes()[i]);
        assert(post.spec_nodes()[j] == pre.spec_nodes()[j]);
    }
}

} // verus!
