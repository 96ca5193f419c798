//! Pipeline layouts: the merged description of every resource binding and
//! vertex buffer a GPU pipeline requires, reconciled from the reflected
//! layouts of the pipeline's shader stages.

use vstd::prelude::*;

verus! {

/// Kind of resource a shader binding expects.
#[derive(Clone, Copy, PartialEq, Eq, Structural, Debug)]
pub enum BindType {
    Uniform,
    StorageBuffer,
    Sampler,
    SampledTexture,
    StorageTexture,
}

/// One binding inside a bind group, as reflected from a shader stage.
/// `shader_stage` is a bit mask of the stages the binding is visible from.
#[derive(Debug)]
pub struct BindingDescriptor {
    pub name: String,
    pub index: u32,
    pub bind_type: BindType,
    pub shader_stage: u32,
}

/// Mathematical model of a binding.
pub struct BindingModel {
    pub name: Seq<char>,
    pub index: u32,
    pub bind_type: BindType,
    pub shader_stage: u32,
}

impl View for BindingDescriptor {
    type V = BindingModel;

    open spec fn view(&self) -> BindingModel {
        BindingModel {
            name: self.name@,
            index: self.index,
            bind_type: self.bind_type,
            shader_stage: self.shader_stage,
        }
    }
}

/// A group of bindings that is bound to the GPU as one unit.
#[derive(Debug)]
pub struct BindGroupDescriptor {
    pub index: u32,
    pub bindings: Vec<BindingDescriptor>,
}

/// Mathematical model of a bind group.
pub struct BindGroupModel {
    pub index: u32,
    pub bindings: Seq<BindingModel>,
}

impl View for BindGroupDescriptor {
    type V = BindGroupModel;

    open spec fn view(&self) -> BindGroupModel {
        BindGroupModel {
            index: self.index,
            bindings: self.bindings@.map_values(|b: BindingDescriptor| b@),
        }
    }
}

/// Layout of one vertex buffer slot.
#[derive(Debug)]
pub struct VertexBufferLayout {
    pub name: String,
    pub stride: u64,
}

/// Mathematical model of a vertex buffer layout.
pub struct VertexBufferModel {
    pub name: Seq<char>,
    pub stride: u64,
}

impl View for VertexBufferLayout {
    type V = VertexBufferModel;

    open spec fn view(&self) -> VertexBufferModel {
        VertexBufferModel { name: self.name@, stride: self.stride }
    }
}

/// Range in push-constant memory used by one or more shader stages.
/// `stages` is a visibility bit mask; the range covers the bytes
/// `start..end`, which must be aligned to 4s.
#[derive(Clone, Copy, PartialEq, Eq, Structural, Debug)]
pub struct PushConstantRange {
    pub stages: u32,
    pub start: u32,
    pub end: u32,
}

/// The merged layout a GPU pipeline is built against.
#[derive(Debug)]
pub struct PipelineLayout {
    pub bind_groups: Vec<BindGroupDescriptor>,
    pub vertex_buffer_descriptors: Vec<VertexBufferLayout>,
    pub push_constant_ranges: Vec<PushConstantRange>,
}

impl PipelineLayout {
    /// No two bind groups of the layout share an index.
    pub open spec fn unique_group_indices(&self) -> bool {
        forall|i: int, j: int|
            0 <= i < j < self.bind_groups@.len() ==> self.bind_groups@[i]@.index
                != self.bind_groups@[j]@.index
    }

    /// Whether the layout declares a bind group at `index`.
    pub open spec fn declares_group(&self, index: u32) -> bool {
        exists|i: int| 0 <= i < self.bind_groups@.len() && self.bind_groups@[i]@.index == index
    }

    /// The bind group indices the layout declares, in declaration order.
    pub open spec fn group_order(&self) -> Seq<u32> {
        self.bind_groups@.map_values(|bg: BindGroupDescriptor| bg@.index)
    }

    /// An index is declared exactly when it occurs in the declaration
    /// order.
    pub proof fn lemma_declares_iff_contains(&self)
        ensures
            forall|k: u32| self.declares_group(k) == self.group_order().contains(k),
    {
        assert forall|k: u32| self.declares_group(k) == self.group_order().contains(k) by {
            if self.declares_group(k) {
                let w = choose|i: int|
                    0 <= i < self.bind_groups@.len() && self.bind_groups@[i]@.index == k;
                assert(self.group_order()[w] == k);
            }
            if self.group_order().contains(k) {
                let w = choose|i: int|
                    0 <= i < self.group_order().len() && self.group_order()[i] == k;
                assert(self.bind_groups@[w]@.index == k);
            }
        }
    }

    /// The bind group declared at `index`, if any; the first match wins.
    pub fn get_bind_group(&self, index: u32) -> (r: Option<&BindGroupDescriptor>)
        ensures
            r.is_some() <==> exists|i: int|
                0 <= i < self.bind_groups@.len() && self.bind_groups@[i]@.index == index,
            match r {
                Some(bg) => exists|i: int|
                    {
                        &&& 0 <= i < self.bind_groups@.len()
                        &&& bg@ == self.bind_groups@[i]@
                        &&& self.bind_groups@[i]@.index == index
                        &&& forall|j: int|
                            0 <= j < i ==> self.bind_groups@[j]@.index != index
                    },
                None => true,
            },
    {
        let mut i: usize = 0;
        while i < self.bind_groups.len()
            invariant
                i <= self.bind_groups@.len(),
                forall|j: int| 0 <= j < i ==> self.bind_groups@[j]@.index != index,
            decreases self.bind_groups@.len() - i,
        {
            if self.bind_groups[i].index == index {
                return Some(&self.bind_groups[i]);
            }
            i = i + 1;
        }
        None
    }
}

/// The reflected layout of one shader stage: its bind groups, its vertex
/// buffer layout (meaningful for the vertex stage), and its push-constant
/// ranges.
#[derive(Debug)]
pub struct ShaderLayout {
    pub bind_groups: Vec<BindGroupDescriptor>,
    pub vertex_buffer_layout: Vec<VertexBufferLayout>,
    pub push_constant_ranges: Vec<PushConstantRange>,
}

/// Two shader stages disagree about one binding: at the same group and
/// binding index they declare different names or types. Raised while the
/// pipeline layout is built; the build aborts.
#[derive(Clone, Copy, PartialEq, Eq, Structural, Debug)]
pub struct LayoutConflict {
    pub group_index: u32,
    pub binding_index: u32,
    pub first_stage: usize,
    pub second_stage: usize,
}

impl BindGroupDescriptor {
    /// No binding index occurs twice in this group.
    pub open spec fn unique_binding_indices(&self) -> bool {
        forall|i: int, j: int|
            0 <= i < j < self.bindings@.len() ==> (#[trigger] self.bindings@[i])@.index != (
            #[trigger] self.bindings@[j])@.index
    }

    /// Whether the group declares a binding at `b`.
    pub open spec fn declares_binding(&self, b: u32) -> bool {
        exists|i: int| 0 <= i < self.bindings@.len() && (#[trigger] self.bindings@[i])@.index == b
    }

    /// The binding declared at `b`. Meaningful only when declared and
    /// unique.
    pub open spec fn binding_at(&self, b: u32) -> BindingModel {
        self.bindings@[choose|i: int|
            0 <= i < self.bindings@.len() && (#[trigger] self.bindings@[i])@.index == b]@
    }
}

impl ShaderLayout {
    /// The stage's groups have unique indices and each group's bindings
    /// have unique indices.
    pub open spec fn wf(&self) -> bool {
        &&& forall|i: int, j: int|
            0 <= i < j < self.bind_groups@.len() ==> (#[trigger] self.bind_groups@[i])@.index != (
            #[trigger] self.bind_groups@[j])@.index
        &&& forall|i: int|
            0 <= i < self.bind_groups@.len() ==> (#[trigger] self.bind_groups@[i])
                .unique_binding_indices()
    }

    /// Whether the stage declares a bind group at `g`.
    pub open spec fn declares_group(&self, g: u32) -> bool {
        exists|i: int|
            0 <= i < self.bind_groups@.len() && (#[trigger] self.bind_groups@[i])@.index == g
    }

    /// The group declared at `g`. Meaningful only when declared.
    pub open spec fn group_at(&self, g: u32) -> BindGroupDescriptor {
        self.bind_groups@[choose|i: int|
            0 <= i < self.bind_groups@.len() && (#[trigger] self.bind_groups@[i])@.index == g]
    }

    /// Whether the stage declares a binding at group `g`, index `b`.
    pub open spec fn declares_binding(&self, g: u32, b: u32) -> bool {
        self.declares_group(g) && self.group_at(g).declares_binding(b)
    }

    /// The binding the stage declares at group `g`, index `b`.
    pub open spec fn binding_at(&self, g: u32, b: u32) -> BindingModel {
        self.group_at(g).binding_at(b)
    }
}

impl PipelineLayout {
    /// Whether the layout declares a binding at group `g`, index `b`.
    pub open spec fn declares_binding(&self, g: u32, b: u32) -> bool {
        self.declares_group(g) && self.group_at(g).declares_binding(b)
    }

    /// The group declared at `g`. Meaningful only when declared.
    pub open spec fn group_at(&self, g: u32) -> BindGroupDescriptor {
        self.bind_groups@[choose|i: int|
            0 <= i < self.bind_groups@.len() && (#[trigger] self.bind_groups@[i])@.index == g]
    }

    /// The binding declared at group `g`, index `b`.
    pub open spec fn binding_at(&self, g: u32, b: u32) -> BindingModel {
        self.group_at(g).binding_at(b)
    }
}

/// Whether stages `s1` and `s2` disagree on the binding at group `g`,
/// index `b`: both declare it, with different names or types.
pub open spec fn stages_disagree(stages: Seq<ShaderLayout>, s1: int, s2: int, g: u32, b: u32) -> bool {
    &&& 0 <= s1 < s2 < stages.len()
    &&& stages[s1].declares_binding(g, b)
    &&& stages[s2].declares_binding(g, b)
    &&& (stages[s1].binding_at(g, b).name != stages[s2].binding_at(g, b).name
        || stages[s1].binding_at(g, b).bind_type != stages[s2].binding_at(g, b).bind_type)
}

/// Whether any two stages disagree on any binding.
pub open spec fn stages_conflict(stages: Seq<ShaderLayout>) -> bool {
    exists|s1: int, s2: int, g: u32, b: u32| stages_disagree(stages, s1, s2, g, b)
}

/// The union of the visibility masks of every stage among the first
/// `upto` that declares the binding at group `g`, index `b`.
pub open spec fn mask_union(stages: Seq<ShaderLayout>, upto: int, g: u32, b: u32) -> u32
    decreases upto,
{
    if upto <= 0 {
        0u32
    } else {
        mask_union(stages, upto - 1, g, b) | (if stages[upto - 1].declares_binding(g, b) {
            stages[upto - 1].binding_at(g, b).shader_stage
        } else {
            0u32
        })
    }
}

/// The push-constant ranges of the first `upto` stages, concatenated in
/// stage order.
pub open spec fn ranges_concat(stages: Seq<ShaderLayout>, upto: int) -> Seq<PushConstantRange>
    decreases upto,
{
    if upto <= 0 {
        Seq::empty()
    } else {
        ranges_concat(stages, upto - 1) + stages[upto - 1].push_constant_ranges@
    }
}

/// At a position of a well-formed group list, the choose-based accessors
/// yield exactly that position's group and binding.
proof fn lemma_stage_binding_at_pos(stage: &ShaderLayout, gp: int, bp: int)
    requires
        stage.wf(),
        0 <= gp < stage.bind_groups@.len(),
        0 <= bp < stage.bind_groups@[gp].bindings@.len(),
    ensures
        stage.declares_group(stage.bind_groups@[gp]@.index),
        stage.group_at(stage.bind_groups@[gp]@.index) == stage.bind_groups@[gp],
        stage.declares_binding(
            stage.bind_groups@[gp]@.index,
            stage.bind_groups@[gp].bindings@[bp]@.index,
        ),
        stage.binding_at(
            stage.bind_groups@[gp]@.index,
            stage.bind_groups@[gp].bindings@[bp]@.index,
        ) == stage.bind_groups@[gp].bindings@[bp]@,
{
    let g = stage.bind_groups@[gp]@.index;
    let b = stage.bind_groups@[gp].bindings@[bp]@.index;
    assert(stage.declares_group(g));
    let w = choose|i: int|
        0 <= i < stage.bind_groups@.len() && (#[trigger] stage.bind_groups@[i])@.index == g;
    assert(w == gp);
    let grp = stage.bind_groups@[gp];
    assert(grp.declares_binding(b));
    let w2 = choose|i: int|
        0 <= i < grp.bindings@.len() && (#[trigger] grp.bindings@[i])@.index == b;
    assert(w2 == bp);
}

/// The binding a stage declares at group `g`, index `b`, if any.
fn stage_get_binding<'a>(stage: &'a ShaderLayout, g: u32, b: u32) -> (r: Option<
    &'a BindingDescriptor,
>)
    requires
        stage.wf(),
    ensures
        match r {
            Some(bd) => stage.declares_binding(g, b) && bd@ == stage.binding_at(g, b),
            None => !stage.declares_binding(g, b),
        },
{
    let ng = stage.bind_groups.len();
    let mut i: usize = 0;
    while i < ng
        invariant
            stage.wf(),
            ng == stage.bind_groups@.len(),
            i <= ng,
            forall|j: int| 0 <= j < i ==> (#[trigger] stage.bind_groups@[j])@.index != g,
        decreases ng - i,
    {
        if stage.bind_groups[i].index == g {
            let grp = &stage.bind_groups[i];
            proof {
                let w = choose|k: int|
                    0 <= k < stage.bind_groups@.len() && (#[trigger] stage.bind_groups@[
                        k])@.index == g;
                assert(w == i as int);
            }
            let nb = grp.bindings.len();
            let mut j: usize = 0;
            while j < nb
                invariant
                    stage.wf(),
                    (i as int) < stage.bind_groups@.len(),
                    grp == &stage.bind_groups@[i as int],
                    stage.bind_groups@[i as int]@.index == g,
                    stage.group_at(g) == stage.bind_groups@[i as int],
                    nb == grp.bindings@.len(),
                    j <= nb,
                    forall|k: int| 0 <= k < j ==> (#[trigger] grp.bindings@[k])@.index != b,
                decreases nb - j,
            {
                if grp.bindings[j].index == b {
                    proof {
                        assert(grp.declares_binding(b));
                        let w2 = choose|k: int|
                            0 <= k < grp.bindings@.len() && (#[trigger] grp.bindings@[
                                k])@.index == b;
                        assert(w2 == j as int);
                    }
                    return Some(&grp.bindings[j]);
                }
                j = j + 1;
            }
            proof {
                if stage.declares_binding(g, b) {
                    let w2 = choose|k: int|
                        0 <= k < grp.bindings@.len() && (#[trigger] grp.bindings@[k])@.index
                            == b;
                    assert(false);
                }
            }
            return None;
        }
        i = i + 1;
    }
    proof {
        if stage.declares_group(g) {
            let w = choose|k: int|
                0 <= k < stage.bind_groups@.len() && (#[trigger] stage.bind_groups@[k])@.index
                    == g;
            assert(false);
        }
    }
    None
}

/// The union of the visibility masks every stage gives the binding at
/// group `g`, index `b`.
fn mask_union_exec(stages: &Vec<ShaderLayout>, g: u32, b: u32) -> (r: u32)
    requires
        forall|s: int| 0 <= s < stages@.len() ==> (#[trigger] stages@[s]).wf(),
    ensures
        r == mask_union(stages@, stages@.len() as int, g, b),
{
    let n = stages.len();
    let mut acc: u32 = 0;
    let mut s: usize = 0;
    while s < n
        invariant
            forall|k: int| 0 <= k < stages@.len() ==> (#[trigger] stages@[k]).wf(),
            n == stages@.len(),
            s <= n,
            acc == mask_union(stages@, s as int, g, b),
        decreases n - s,
    {
        match stage_get_binding(&stages[s], g, b) {
            Some(bd) => {
                acc = acc | bd.shader_stage;
            },
            None => {
                proof {
                    assert(acc | 0u32 == acc) by (bit_vector);
                }
            },
        }
        s = s + 1;
    }
    acc
}

/// A disagreement between two stages, if any exists.
fn find_conflict(stages: &Vec<ShaderLayout>) -> (r: Option<LayoutConflict>)
    requires
        forall|s: int| 0 <= s < stages@.len() ==> (#[trigger] stages@[s]).wf(),
    ensures
        match r {
            Some(c) => stages_disagree(
                stages@,
                c.first_stage as int,
                c.second_stage as int,
                c.group_index,
                c.binding_index,
            ),
            None => !stages_conflict(stages@),
        },
{
    let n = stages.len();
    let mut s1: usize = 0;
    while s1 < n
        invariant
            forall|k: int| 0 <= k < stages@.len() ==> (#[trigger] stages@[k]).wf(),
            n == stages@.len(),
            s1 <= n,
            forall|a: int, s2: int, g: u32, b: u32|
                0 <= a < s1 ==> !stages_disagree(stages@, a, s2, g, b),
        decreases n - s1,
    {
        let ng = stages[s1].bind_groups.len();
        let mut gp: usize = 0;
        while gp < ng
            invariant
                forall|k: int| 0 <= k < stages@.len() ==> (#[trigger] stages@[k]).wf(),
                n == stages@.len(),
                s1 < n,
                ng == stages@[s1 as int].bind_groups@.len(),
                gp <= ng,
                forall|s2: int, gp2: int, bp2: int|
                    0 <= gp2 < gp && s1 < s2 < n && 0 <= bp2 < stages@[s1 as int].bind_groups@[
                        gp2].bindings@.len() ==> !pos_disagrees(stages@, s1 as int, s2, gp2, bp2),
            decreases ng - gp,
        {
            let nb = stages[s1].bind_groups[gp].bindings.len();
            let mut bp: usize = 0;
            while bp < nb
                invariant
                    forall|k: int| 0 <= k < stages@.len() ==> (#[trigger] stages@[k]).wf(),
                    n == stages@.len(),
                    s1 < n,
                    gp < stages@[s1 as int].bind_groups@.len(),
                    nb == stages@[s1 as int].bind_groups@[gp as int].bindings@.len(),
                    bp <= nb,
                    forall|s2: int, bp2: int|
                        0 <= bp2 < bp && s1 < s2 < n ==> !pos_disagrees(
                            stages@,
                            s1 as int,
                            s2,
                            gp as int,
                            bp2,
                        ),
                decreases nb - bp,
            {
                let g = stages[s1].bind_groups[gp].index;
                let b = stages[s1].bind_groups[gp].bindings[bp].index;
                proof {
                    lemma_stage_binding_at_pos(&stages@[s1 as int], gp as int, bp as int);
                }
                let mut s2: usize = s1 + 1;
                while s2 < n
                    invariant
                        forall|k: int| 0 <= k < stages@.len() ==> (#[trigger] stages@[k]).wf(),
                        n == stages@.len(),
                        s1 < s2,
                        s2 <= n,
                        gp < stages@[s1 as int].bind_groups@.len(),
                        bp < stages@[s1 as int].bind_groups@[gp as int].bindings@.len(),
                        g == stages@[s1 as int].bind_groups@[gp as int]@.index,
                        b == stages@[s1 as int].bind_groups@[gp as int].bindings@[bp as int]@.index,
                        stages@[s1 as int].declares_binding(g, b),
                        stages@[s1 as int].binding_at(g, b) == stages@[s1 as int].bind_groups@[
                            gp as int].bindings@[bp as int]@,
                        forall|a: int| s1 < a < s2 ==> !pos_disagrees(
                            stages@,
                            s1 as int,
                            a,
                            gp as int,
                            bp as int,
                        ),
                    decreases n - s2,
                {
                    match stage_get_binding(&stages[s2], g, b) {
                        Some(bd2) => {
                            let bd1 = &stages[s1].bind_groups[gp].bindings[bp];
                            if !(bd1.name == bd2.name) || bd1.bind_type != bd2.bind_type {
                                return Some(
                                    LayoutConflict {
                                        group_index: g,
                                        binding_index: b,
                                        first_stage: s1,
                                        second_stage: s2,
                                    },
                                );
                            }
                        },
                        None => {},
                    }
                    s2 = s2 + 1;
                }
                bp = bp + 1;
            }
            gp = gp + 1;
        }
        proof {
            assert forall|s2: int, g2: u32, b2: u32| !stages_disagree(
                stages@,
                s1 as int,
                s2,
                g2,
                b2,
            ) by {
                if stages_disagree(stages@, s1 as int, s2, g2, b2) {
                    let st = stages@[s1 as int];
                    let gp2 = choose|i: int|
                        0 <= i < st.bind_groups@.len() && (#[trigger] st.bind_groups@[i])@.index
                            == g2;
                    let grp = st.bind_groups@[gp2];
                    let bp2 = choose|i: int|
                        0 <= i < grp.bindings@.len() && (#[trigger] grp.bindings@[i])@.index
                            == b2;
                    lemma_stage_binding_at_pos(&st, gp2, bp2);
                    assert(pos_disagrees(stages@, s1 as int, s2, gp2, bp2));
                    assert(false);
                }
            }
        }
        s1 = s1 + 1;
    }
    proof {
        if stages_conflict(stages@) {
            let (s1, s2, g, b) = choose|s1: int, s2: int, g: u32, b: u32|
                stages_disagree(stages@, s1, s2, g, b);
            assert(false);
        }
    }
    None
}

/// Whether the binding of stage `s1` at group position `gp`, binding
/// position `bp` is also declared by stage `s2` with a different name or
/// type.
pub open spec fn pos_disagrees(
    stages: Seq<ShaderLayout>,
    s1: int,
    s2: int,
    gp: int,
    bp: int,
) -> bool {
    let grp = stages[s1].bind_groups@[gp];
    let bd = grp.bindings@[bp]@;
    &&& s1 < s2 < stages.len()
    &&& stages[s2].declares_binding(grp@.index, bd.index)
    &&& (stages[s2].binding_at(grp@.index, bd.index).name != bd.name || stages[s2].binding_at(
        grp@.index,
        bd.index,
    ).bind_type != bd.bind_type)
}

/// Inserts `x` into the ascending list `v` if it is not there yet.
fn insert_sorted_unique(v: &mut Vec<u32>, x: u32)
    requires
        forall|i: int, j: int| 0 <= i < j < old(v)@.len() ==> old(v)@[i] < old(v)@[j],
    ensures
        forall|i: int, j: int| 0 <= i < j < final(v)@.len() ==> final(v)@[i] < final(v)@[j],
        forall|y: u32| final(v)@.contains(y) == (old(v)@.contains(y) || y == x),
{
    let n = v.len();
    let mut i: usize = 0;
    while i < n
        invariant
            *v == *old(v),
            forall|a: int, b: int| 0 <= a < b < v@.len() ==> v@[a] < v@[b],
            n == v@.len(),
            i <= n,
            forall|j: int| 0 <= j < i ==> v@[j] < x,
        decreases n - i,
    {
        if v[i] == x {
            proof {
                assert(v@.contains(x));
            }
            return ;
        }
        if v[i] > x {
            let ghost pre = v@;
            v.insert(i, x);
            proof {
                assert forall|a: int, b: int| 0 <= a < b < v@.len() implies v@[a] < v@[b] by {
                    if b < i {
                    } else if a < i && b == i {
                        assert(v@[a] == pre[a] && v@[b] == x);
                    } else if a < i && b > i {
                        assert(v@[a] == pre[a] && v@[b] == pre[b - 1]);
                    } else if a == i {
                        assert(v@[a] == x && v@[b] == pre[b - 1]);
                        assert(pre[b - 1] >= pre[i as int]);
                    } else {
                        assert(v@[a] == pre[a - 1] && v@[b] == pre[b - 1]);
                    }
                }
                assert forall|y: u32| v@.contains(y) == (pre.contains(y) || y == x) by {
                    if pre.contains(y) {
                        let w = choose|k: int| 0 <= k < pre.len() && pre[k] == y;
                        if w < i {
                            assert(v@[w] == y);
                        } else {
                            assert(v@[w + 1] == y);
                        }
                    }
                    if y == x {
                        assert(v@[i as int] == y);
                    }
                    if v@.contains(y) {
                        let w = choose|k: int| 0 <= k < v@.len() && v@[k] == y;
                        if w < i {
                            assert(pre[w] == y);
                        } else if w == i {
                        } else {
                            assert(pre[w - 1] == y);
                        }
                    }
                }
            }
            return ;
        }
        i = i + 1;
    }
    let ghost pre = v@;
    v.push(x);
    proof {
        assert forall|y: u32| v@.contains(y) == (pre.contains(y) || y == x) by {
            if pre.contains(y) {
                let w = choose|k: int| 0 <= k < pre.len() && pre[k] == y;
                assert(v@[w] == y);
            }
            if y == x {
                assert(v@[pre.len() as int] == y);
            }
            if v@.contains(y) {
                let w = choose|k: int| 0 <= k < v@.len() && v@[k] == y;
                if w < pre.len() {
                    assert(pre[w] == y);
                }
            }
        }
    }
}

/// Every group index any stage declares, ascending.
fn collect_group_indices(stages: &Vec<ShaderLayout>) -> (r: Vec<u32>)
    requires
        forall|s: int| 0 <= s < stages@.len() ==> (#[trigger] stages@[s]).wf(),
    ensures
        forall|i: int, j: int| 0 <= i < j < r@.len() ==> r@[i] < r@[j],
        forall|g: u32|
            r@.contains(g) == exists|s: int|
                0 <= s < stages@.len() && (#[trigger] stages@[s]).declares_group(g),
{
    let n = stages.len();
    let mut r: Vec<u32> = Vec::new();
    let mut s: usize = 0;
    while s < n
        invariant
            forall|k: int| 0 <= k < stages@.len() ==> (#[trigger] stages@[k]).wf(),
            n == stages@.len(),
            s <= n,
            forall|i: int, j: int| 0 <= i < j < r@.len() ==> r@[i] < r@[j],
            forall|i: int|
                0 <= i < r@.len() ==> exists|k: int|
                    0 <= k < stages@.len() && (#[trigger] stages@[k]).declares_group(
                        #[trigger] r@[i],
                    ),
            forall|k: int, p: int|
                0 <= k < s && 0 <= p < stages@[k].bind_groups@.len() ==> r@.contains(
                    (#[trigger] stages@[k].bind_groups@[p])@.index,
                ),
        decreases n - s,
    {
        let stage = &stages[s];
        let ng = stage.bind_groups.len();
        let mut gp: usize = 0;
        while gp < ng
            invariant
                forall|k: int| 0 <= k < stages@.len() ==> (#[trigger] stages@[k]).wf(),
                n == stages@.len(),
                s < n,
                stage == &stages@[s as int],
                ng == stage.bind_groups@.len(),
                gp <= ng,
                forall|i: int, j: int| 0 <= i < j < r@.len() ==> r@[i] < r@[j],
                forall|i: int|
                    0 <= i < r@.len() ==> exists|k: int|
                        0 <= k < stages@.len() && (#[trigger] stages@[k]).declares_group(
                            #[trigger] r@[i],
                        ),
                forall|k: int, p: int|
                    0 <= k < s && 0 <= p < stages@[k].bind_groups@.len() ==> r@.contains(
                        (#[trigger] stages@[k].bind_groups@[p])@.index,
                    ),
                forall|p: int|
                    0 <= p < gp ==> r@.contains(
                        (#[trigger] stages@[s as int].bind_groups@[p])@.index,
                    ),
            decreases ng - gp,
        {
            let g = stage.bind_groups[gp].index;
            proof {
                lemma_stage_binding_at_pos_group(&stages@[s as int], gp as int);
            }
            let ghost pre = r@;
            insert_sorted_unique(&mut r, g);
            proof {
                assert forall|i: int| 0 <= i < r@.len() implies exists|k: int|
                    0 <= k < stages@.len() && (#[trigger] stages@[k]).declares_group(
                        #[trigger] r@[i],
                    ) by {
                    let x = r@[i];
                    assert(r@.contains(x));
                    if pre.contains(x) {
                        let j = choose|j: int| 0 <= j < pre.len() && pre[j] == x;
                        assert(exists|k: int|
                            0 <= k < stages@.len() && (#[trigger] stages@[k]).declares_group(
                                pre[j],
                            ));
                    } else {
                        assert(x == g);
                        assert(stages@[s as int].declares_group(g));
                    }
                }
                assert forall|k: int, p: int|
                    0 <= k < s && 0 <= p < stages@[k].bind_groups@.len() implies r@.contains(
                    (#[trigger] stages@[k].bind_groups@[p])@.index,
                ) by {
                    assert(pre.contains((stages@[k].bind_groups@[p])@.index));
                }
                assert forall|p: int| 0 <= p < gp + 1 implies r@.contains(
                    (#[trigger] stages@[s as int].bind_groups@[p])@.index,
                ) by {
                    if p < gp {
                        assert(pre.contains((stages@[s as int].bind_groups@[p])@.index));
                    }
                }
            }
            gp = gp + 1;
        }
        s = s + 1;
    }
    proof {
        assert forall|g: u32| r@.contains(g) == exists|k: int|
            0 <= k < stages@.len() && (#[trigger] stages@[k]).declares_group(g) by {
            if r@.contains(g) {
                let i = choose|i: int| 0 <= i < r@.len() && r@[i] == g;
                assert(exists|k: int|
                    0 <= k < stages@.len() && (#[trigger] stages@[k]).declares_group(r@[i]));
            }
            if exists|k: int| 0 <= k < stages@.len() && (#[trigger] stages@[k]).declares_group(
                g,
            ) {
                let k = choose|k: int|
                    0 <= k < stages@.len() && (#[trigger] stages@[k]).declares_group(g);
                let p = choose|p: int|
                    0 <= p < stages@[k].bind_groups@.len() && (#[trigger] stages@[
                        k].bind_groups@[p])@.index == g;
                assert(r@.contains((stages@[k].bind_groups@[p])@.index));
            }
        }
    }
    r
}

/// At a group position of a well-formed stage, the stage declares that
/// group's index.
proof fn lemma_stage_binding_at_pos_group(stage: &ShaderLayout, gp: int)
    requires
        stage.wf(),
        0 <= gp < stage.bind_groups@.len(),
    ensures
        stage.declares_group(stage.bind_groups@[gp]@.index),
{
    assert(stage.bind_groups@[gp]@.index == stage.bind_groups@[gp]@.index);
}

/// The merged bindings of group `g`: one binding per index any stage
/// declares at `g`, carrying the shared name and type and the union of
/// the declaring stages' visibility masks. Bindings are listed in order
/// of first appearance across the stages.
fn build_group(stages: &Vec<ShaderLayout>, g: u32) -> (r: BindGroupDescriptor)
    requires
        forall|s: int| 0 <= s < stages@.len() ==> (#[trigger] stages@[s]).wf(),
        !stages_conflict(stages@),
    ensures
        r@.index == g,
        r.unique_binding_indices(),
        forall|b: u32|
            r.declares_binding(b) == exists|s: int|
                0 <= s < stages@.len() && #[trigger] stages@[s].declares_binding(g, b),
        forall|b: u32, s: int|
            0 <= s < stages@.len() && #[trigger] stages@[s].declares_binding(g, b) ==> {
                &&& r.binding_at(b).name == stages@[s].binding_at(g, b).name
                &&& r.binding_at(b).bind_type == stages@[s].binding_at(g, b).bind_type
            },
        forall|b: u32|
            #[trigger] r.declares_binding(b) ==> r.binding_at(b).shader_stage == mask_union(
                stages@,
                stages@.len() as int,
                g,
                b,
            ),
    {
        let n = stages.len();
        let mut bindings: Vec<BindingDescriptor> = Vec::new();
        let mut s: usize = 0;
        while s < n
            invariant
                forall|k: int| 0 <= k < stages@.len() ==> (#[trigger] stages@[k]).wf(),
                !stages_conflict(stages@),
                n == stages@.len(),
                s <= n,
                forall|i: int, j: int|
                    0 <= i < j < bindings@.len() ==> (#[trigger] bindings@[i])@.index != (
                    #[trigger] bindings@[j])@.index,
                forall|i: int|
                    0 <= i < bindings@.len() ==> exists|k: int|
                        0 <= k < s && (#[trigger] stages@[k]).declares_binding(
                            g,
                            bindings@[i]@.index,
                        ) && stages@[k].binding_at(g, bindings@[i]@.index).name == (
                        #[trigger] bindings@[i])@.name && stages@[k].binding_at(
                            g,
                            bindings@[i]@.index,
                        ).bind_type == bindings@[i]@.bind_type,
                forall|i: int|
                    0 <= i < bindings@.len() ==> (#[trigger] bindings@[i])@.shader_stage
                        == mask_union(stages@, stages@.len() as int, g, bindings@[i]@.index),
                forall|b: u32, k: int|
                    0 <= k < s && #[trigger] stages@[k].declares_binding(g, b) ==> exists|i: int|
                        0 <= i < bindings@.len() && (#[trigger] bindings@[i])@.index == b,
            decreases n - s,
        {
            let found_group = find_stage_group(&stages[s], g);
            match found_group {
                Some(gp) => {
                    let nb = stages[s].bind_groups[gp].bindings.len();
                    let mut bp: usize = 0;
                    while bp < nb
                        invariant
                            forall|k: int|
                                0 <= k < stages@.len() ==> (#[trigger] stages@[k]).wf(),
                            !stages_conflict(stages@),
                            n == stages@.len(),
                            s < n,
                            gp < stages@[s as int].bind_groups@.len(),
                            stages@[s as int].bind_groups@[gp as int]@.index == g,
                            nb == stages@[s as int].bind_groups@[gp as int].bindings@.len(),
                            bp <= nb,
                            forall|i: int, j: int|
                                0 <= i < j < bindings@.len() ==> (
                                #[trigger] bindings@[i])@.index != (
                                #[trigger] bindings@[j])@.index,
                            forall|i: int|
                                0 <= i < bindings@.len() ==> exists|k: int|
                                    0 <= k < s + 1 && (#[trigger] stages@[k]).declares_binding(
                                        g,
                                        bindings@[i]@.index,
                                    ) && stages@[k].binding_at(g, bindings@[i]@.index).name == (
                                    #[trigger] bindings@[i])@.name && stages@[k].binding_at(
                                        g,
                                        bindings@[i]@.index,
                                    ).bind_type == bindings@[i]@.bind_type,
                            forall|i: int|
                                0 <= i < bindings@.len() ==> (
                                #[trigger] bindings@[i])@.shader_stage == mask_union(
                                    stages@,
                                    stages@.len() as int,
                                    g,
                                    bindings@[i]@.index,
                                ),
                            forall|b: u32, k: int|
                                0 <= k < s && #[trigger] stages@[k].declares_binding(g, b)
                                    ==> exists|i: int|
                                    0 <= i < bindings@.len() && (#[trigger] bindings@[i])@.index
                                        == b,
                            forall|p: int|
                                0 <= p < bp ==> exists|i: int|
                                    0 <= i < bindings@.len() && (#[trigger] bindings@[i])@.index
                                        == (#[trigger] stages@[s as int].bind_groups@[
                                        gp as int].bindings@[p])@.index,
                        decreases nb - bp,
                    {
                        let bd = &stages[s].bind_groups[gp].bindings[bp];
                        proof {
                            lemma_stage_binding_at_pos(&stages@[s as int], gp as int, bp as int);
                        }
                        if find_binding_index(&bindings, bd.index).is_none() {
                            let mask = mask_union_exec(stages, g, bd.index);
                            let entry = BindingDescriptor {
                                name: clone_string(&bd.name),
                                index: bd.index,
                                bind_type: bd.bind_type,
                                shader_stage: mask,
                            };
                            let ghost pre = bindings@;
                            let ghost entry_v = entry;
                            bindings.push(entry);
                            proof {
                                let m = pre.len() as int;
                                assert(bindings@ == pre.push(entry_v));
                                assert(bindings@[m]@.index == bd@.index);
                                assert(bindings@[m]@.name == bd@.name);
                                assert(bindings@[m]@.bind_type == bd@.bind_type);
                                assert(stages@[s as int].declares_binding(g, bd@.index));
                                assert(forall|i: int| 0 <= i < m ==> bindings@[i] == pre[i]);
                                assert forall|b2: u32, k: int|
                                    0 <= k < s && #[trigger] stages@[k].declares_binding(g, b2)
                                    implies exists|i: int|
                                    0 <= i < bindings@.len() && (#[trigger] bindings@[i])@.index
                                        == b2 by {
                                    let i = choose|i: int|
                                        0 <= i < pre.len() && (#[trigger] pre[i])@.index == b2;
                                    assert(bindings@[i]@.index == b2);
                                }
                                assert forall|p: int| 0 <= p < bp + 1 implies exists|i: int|
                                    0 <= i < bindings@.len() && (#[trigger] bindings@[i])@.index
                                        == (#[trigger] stages@[s as int].bind_groups@[
                                        gp as int].bindings@[p])@.index by {
                                    if p < bp {
                                        let i = choose|i: int|
                                            0 <= i < pre.len() && (#[trigger] pre[i])@.index == (
                                            stages@[s as int].bind_groups@[gp as int].bindings@[
                                                p])@.index;
                                        assert(bindings@[i]@.index == (stages@[
                                            s as int].bind_groups@[gp as int].bindings@[
                                            p])@.index);
                                    } else {
                                        assert(bindings@[m]@.index == (stages@[
                                            s as int].bind_groups@[gp as int].bindings@[
                                            p])@.index);
                                    }
                                }
                            }
                        } else {
                            proof {
                                let w = choose|i: int|
                                    0 <= i < bindings@.len() && (#[trigger] bindings@[i])@.index
                                        == bd@.index;
                            }
                        }
                        bp = bp + 1;
                    }
                    proof {
                        assert forall|b: u32, k: int|
                            0 <= k < s + 1 && #[trigger] stages@[k].declares_binding(g, b)
                            implies exists|i: int|
                            0 <= i < bindings@.len() && (#[trigger] bindings@[i])@.index
                                == b by {
                            if k == s {
                                let st = stages@[s as int];
                                let wg = choose|i: int|
                                    0 <= i < st.bind_groups@.len() && (
                                    #[trigger] st.bind_groups@[i])@.index == g;
                                assert(wg == gp as int);
                                let grp = st.bind_groups@[gp as int];
                                let wb = choose|i: int|
                                    0 <= i < grp.bindings@.len() && (#[trigger] grp.bindings@[
                                        i])@.index == b;
                                assert(grp.bindings@[wb]@.index == b);
                            }
                        }
                    }
                },
                None => {
                    proof {
                        assert forall|b: u32, k: int|
                            0 <= k < s + 1 && #[trigger] stages@[k].declares_binding(g, b)
                            implies exists|i: int|
                            0 <= i < bindings@.len() && (#[trigger] bindings@[i])@.index
                                == b by {}
                    }
                },
            }
            s = s + 1;
        }
        let r = BindGroupDescriptor { index: g, bindings };
        proof {
            assert forall|b: u32| r.declares_binding(b) == exists|s2: int|
                0 <= s2 < stages@.len() && #[trigger] stages@[s2].declares_binding(g, b) by {
                if r.declares_binding(b) {
                    let i = choose|i: int|
                        0 <= i < r.bindings@.len() && (#[trigger] r.bindings@[i])@.index == b;
                }
            }
            assert forall|b: u32, s2: int|
                0 <= s2 < stages@.len() && #[trigger] stages@[s2].declares_binding(g, b)
                implies {
                &&& r.binding_at(b).name == stages@[s2].binding_at(g, b).name
                &&& r.binding_at(b).bind_type == stages@[s2].binding_at(g, b).bind_type
            } by {
                assert(r.declares_binding(b));
                let i = choose|i: int|
                    0 <= i < r.bindings@.len() && (#[trigger] r.bindings@[i])@.index == b;
                assert(r.binding_at(b) == r.bindings@[i]@);
                let k = choose|k: int|
                    0 <= k < stages@.len() && (#[trigger] stages@[k]).declares_binding(
                        g,
                        r.bindings@[i]@.index,
                    ) && stages@[k].binding_at(g, r.bindings@[i]@.index).name == r.bindings@[
                        i]@.name && stages@[k].binding_at(g, r.bindings@[i]@.index).bind_type
                        == r.bindings@[i]@.bind_type;
                if k != s2 {
                    if k < s2 {
                        assert(!stages_disagree(stages@, k, s2, g, b));
                    } else {
                        assert(!stages_disagree(stages@, s2, k, g, b));
                    }
                }
            }
            assert forall|b: u32| #[trigger] r.declares_binding(b) implies r.binding_at(
                b,
            ).shader_stage == mask_union(stages@, stages@.len() as int, g, b) by {
                let i = choose|i: int|
                    0 <= i < r.bindings@.len() && (#[trigger] r.bindings@[i])@.index == b;
                assert(r.binding_at(b) == r.bindings@[i]@);
            }
        }
        r
    }

/// The position of the group with index `g` among a stage's groups.
fn find_stage_group(stage: &ShaderLayout, g: u32) -> (r: Option<usize>)
    requires
        stage.wf(),
    ensures
        match r {
            Some(i) => i < stage.bind_groups@.len() && stage.bind_groups@[i as int]@.index == g,
            None => !stage.declares_group(g),
        },
{
    let n = stage.bind_groups.len();
    let mut i: usize = 0;
    while i < n
        invariant
            n == stage.bind_groups@.len(),
            i <= n,
            forall|j: int| 0 <= j < i ==> (#[trigger] stage.bind_groups@[j])@.index != g,
        decreases n - i,
    {
        if stage.bind_groups[i].index == g {
            return Some(i);
        }
        i = i + 1;
    }
    None
}

/// The position of the binding with index `b` in a binding list.
fn find_binding_index(bindings: &Vec<BindingDescriptor>, b: u32) -> (r: Option<usize>)
    ensures
        match r {
            Some(i) => i < bindings@.len() && bindings@[i as int]@.index == b,
            None => forall|j: int|
                0 <= j < bindings@.len() ==> (#[trigger] bindings@[j])@.index != b,
        },
{
    let n = bindings.len();
    let mut i: usize = 0;
    while i < n
        invariant
            n == bindings@.len(),
            i <= n,
            forall|j: int| 0 <= j < i ==> (#[trigger] bindings@[j])@.index != b,
        decreases n - i,
    {
        if bindings[i].index == b {
            return Some(i);
        }
        i = i + 1;
    }
    None
}

/// A copy of a string with the same characters.
fn clone_string(s: &String) -> (r: String)
    ensures
        r == s,
{
    s.clone()
}

/// A copy of a vertex buffer layout list with the same entries.
fn clone_vertex_buffers(v: &Vec<VertexBufferLayout>) -> (r: Vec<VertexBufferLayout>)
    ensures
        r@ == v@,
{
    let n = v.len();
    let mut r: Vec<VertexBufferLayout> = Vec::new();
    let mut i: usize = 0;
    while i < n
        invariant
            n == v@.len(),
            i <= n,
            r@ =~= v@.take(i as int),
        decreases n - i,
    {
        let entry = VertexBufferLayout { name: clone_string(&v[i].name), stride: v[i].stride };
        r.push(entry);
        proof {
            assert(entry == v@[i as int]);
            assert(v@.take(i + 1 as int) =~= v@.take(i as int).push(v@[i as int]));
        }
        i = i + 1;
    }
    proof {
        assert(v@.take(n as int) =~= v@);
    }
    r
}

/// The push-constant ranges of all stages, concatenated in stage order.
fn concat_ranges(stages: &Vec<ShaderLayout>) -> (r: Vec<PushConstantRange>)
    ensures
        r@ == ranges_concat(stages@, stages@.len() as int),
{
    let n = stages.len();
    let mut r: Vec<PushConstantRange> = Vec::new();
    let mut s: usize = 0;
    while s < n
        invariant
            n == stages@.len(),
            s <= n,
            r@ == ranges_concat(stages@, s as int),
        decreases n - s,
    {
        let stage_ranges = &stages[s].push_constant_ranges;
        let m = stage_ranges.len();
        let mut j: usize = 0;
        while j < m
            invariant
                n == stages@.len(),
                s < n,
                stage_ranges == &stages@[s as int].push_constant_ranges,
                m == stage_ranges@.len(),
                j <= m,
                r@ =~= ranges_concat(stages@, s as int) + stage_ranges@.take(j as int),
            decreases m - j,
        {
            r.push(stage_ranges[j]);
            proof {
                assert(stage_ranges@.take(j + 1 as int) =~= stage_ranges@.take(j as int).push(
                    stage_ranges@[j as int],
                ));
            }
            j = j + 1;
        }
        proof {
            assert(stage_ranges@.take(m as int) =~= stage_ranges@);
            assert(r@ =~= ranges_concat(stages@, s as int + 1));
        }
        s = s + 1;
    }
    r
}

impl PipelineLayout {
    /// Merges the reflected layouts of a pipeline's shader stages into
    /// one pipeline layout.
    ///
    /// Bind groups are accumulated by group index and emitted ascending
    /// by index, for the deterministic binding order the GPU API needs.
    /// A binding two stages declare at the same group and index merges
    /// into one with the union of the stages' visibility masks; within a
    /// group, bindings are listed in order of first appearance across the
    /// stages. Stages that disagree about a binding's name or type
    /// conflict, and the build fails naming the two stages. The vertex
    /// buffer layout is taken from the first stage (the vertex stage)
    /// only. Push-constant ranges are concatenated in stage order without
    /// overlap validation.
    pub fn from_shader_layouts(shader_layouts: &Vec<ShaderLayout>) -> (r: Result<
        PipelineLayout,
        LayoutConflict,
    >)
        requires
            shader_layouts@.len() >= 1,
            forall|s: int| 0 <= s < shader_layouts@.len() ==> (#[trigger] shader_layouts@[
                s]).wf(),
        ensures
            match r {
                Ok(layout) => {
                    &&& !stages_conflict(shader_layouts@)
                    &&& layout.unique_group_indices()
                    &&& forall|i: int, j: int|
                        0 <= i < j < layout.bind_groups@.len() ==> (
                        #[trigger] layout.bind_groups@[i])@.index < (
                        #[trigger] layout.bind_groups@[j])@.index
                    &&& forall|i: int|
                        0 <= i < layout.bind_groups@.len() ==> (#[trigger] layout.bind_groups@[
                            i]).unique_binding_indices()
                    &&& forall|g: u32|
                        layout.declares_group(g) == exists|s: int|
                            0 <= s < shader_layouts@.len() && (#[trigger] shader_layouts@[
                                s]).declares_group(g)
                    &&& forall|g: u32, b: u32|
                        #[trigger] layout.declares_binding(g, b) == exists|s: int|
                            0 <= s < shader_layouts@.len() && (#[trigger] shader_layouts@[
                                s]).declares_binding(g, b)
                    &&& forall|g: u32, b: u32, s: int|
                        0 <= s < shader_layouts@.len() && #[trigger] shader_layouts@[
                            s].declares_binding(g, b) ==> {
                            &&& layout.binding_at(g, b).name == shader_layouts@[s].binding_at(
                                g,
                                b,
                            ).name
                            &&& layout.binding_at(g, b).bind_type == shader_layouts@[
                                s].binding_at(g, b).bind_type
                        }
                    &&& forall|g: u32, b: u32|
                        #[trigger] layout.declares_binding(g, b) ==> layout.binding_at(
                            g,
                            b,
                        ).shader_stage == mask_union(
                            shader_layouts@,
                            shader_layouts@.len() as int,
                            g,
                            b,
                        )
                    &&& layout.vertex_buffer_descriptors@ == shader_layouts@[
                        0].vertex_buffer_layout@
                    &&& layout.push_constant_ranges@ == ranges_concat(
                        shader_layouts@,
                        shader_layouts@.len() as int,
                    )
                },
                Err(c) => stages_disagree(
                    shader_layouts@,
                    c.first_stage as int,
                    c.second_stage as int,
                    c.group_index,
                    c.binding_index,
                ),
            },
    {
        match find_conflict(shader_layouts) {
            Some(c) => Err(c),
            None => {
                let gidx = collect_group_indices(shader_layouts);
                let n_groups = gidx.len();
                let mut groups: Vec<BindGroupDescriptor> = Vec::new();
                let mut t: usize = 0;
                while t < n_groups
                    invariant
                        forall|s: int|
                            0 <= s < shader_layouts@.len() ==> (#[trigger] shader_layouts@[
                                s]).wf(),
                        !stages_conflict(shader_layouts@),
                        n_groups == gidx@.len(),
                        t <= n_groups,
                        forall|i: int, j: int| 0 <= i < j < gidx@.len() ==> gidx@[i] < gidx@[j],
                        forall|g: u32|
                            gidx@.contains(g) == exists|s: int|
                                0 <= s < shader_layouts@.len() && (#[trigger] shader_layouts@[
                                    s]).declares_group(g),
                        groups@.len() == t,
                        forall|u: int|
                            0 <= u < t ==> (#[trigger] groups@[u])@.index == gidx@[u],
                        forall|u: int|
                            0 <= u < t ==> (#[trigger] groups@[u]).unique_binding_indices(),
                        forall|u: int, b: u32|
                            0 <= u < t ==> (#[trigger] groups@[u].declares_binding(b)
                                == exists|s: int|
                                0 <= s < shader_layouts@.len() && #[trigger] shader_layouts@[
                                    s].declares_binding(gidx@[u], b)),
                        forall|u: int, b: u32, s: int|
                            0 <= u < t && 0 <= s < shader_layouts@.len()
                                && #[trigger] shader_layouts@[s].declares_binding(gidx@[u], b)
                                ==> {
                                &&& (#[trigger] groups@[u]).binding_at(b).name
                                    == shader_layouts@[s].binding_at(gidx@[u], b).name
                                &&& groups@[u].binding_at(b).bind_type == shader_layouts@[
                                    s].binding_at(gidx@[u], b).bind_type
                            },
                        forall|u: int, b: u32|
                            0 <= u < t && #[trigger] groups@[u].declares_binding(b)
                                ==> groups@[u].binding_at(b).shader_stage == mask_union(
                                shader_layouts@,
                                shader_layouts@.len() as int,
                                gidx@[u],
                                b,
                            ),
                    decreases n_groups - t,
                {
                    let group = build_group(shader_layouts, gidx[t]);
                    groups.push(group);
                    t = t + 1;
                }
                let vbufs = clone_vertex_buffers(&shader_layouts[0].vertex_buffer_layout);
                let ranges = concat_ranges(shader_layouts);
                let layout = PipelineLayout {
                    bind_groups: groups,
                    vertex_buffer_descriptors: vbufs,
                    push_constant_ranges: ranges,
                };
                proof {
                    lemma_merged_layout_props(&layout, gidx@, shader_layouts@);
                }
                Ok(layout)
            },
        }
    }
}

/// Carries the per-position facts about the merged groups over to the
/// choose-based accessors of the finished layout.
proof fn lemma_merged_layout_props(
    layout: &PipelineLayout,
    gidx: Seq<u32>,
    stages: Seq<ShaderLayout>,
)
    requires
        layout.bind_groups@.len() == gidx.len(),
        forall|i: int, j: int| 0 <= i < j < gidx.len() ==> gidx[i] < gidx[j],
        forall|g: u32|
            gidx.contains(g) == exists|s: int|
                0 <= s < stages.len() && (#[trigger] stages[s]).declares_group(g),
        forall|u: int|
            0 <= u < gidx.len() ==> (#[trigger] layout.bind_groups@[u])@.index == gidx[u],
        forall|u: int, b: u32|
            0 <= u < gidx.len() ==> (#[trigger] layout.bind_groups@[u].declares_binding(b)
                == exists|s: int|
                0 <= s < stages.len() && #[trigger] stages[s].declares_binding(gidx[u], b)),
        forall|u: int, b: u32, s: int|
            0 <= u < gidx.len() && 0 <= s < stages.len() && #[trigger] stages[
                s].declares_binding(gidx[u], b) ==> {
                &&& (#[trigger] layout.bind_groups@[u]).binding_at(b).name == stages[
                    s].binding_at(gidx[u], b).name
                &&& layout.bind_groups@[u].binding_at(b).bind_type == stages[s].binding_at(
                    gidx[u],
                    b,
                ).bind_type
            },
        forall|u: int, b: u32|
            0 <= u < gidx.len() && #[trigger] layout.bind_groups@[u].declares_binding(b)
                ==> layout.bind_groups@[u].binding_at(b).shader_stage == mask_union(
                stages,
                stages.len() as int,
                gidx[u],
                b,
            ),
    ensures
        layout.unique_group_indices(),
        forall|i: int, j: int|
            0 <= i < j < layout.bind_groups@.len() ==> (#[trigger] layout.bind_groups@[
                i])@.index < (#[trigger] layout.bind_groups@[j])@.index,
        forall|g: u32|
            layout.declares_group(g) == exists|s: int|
                0 <= s < stages.len() && (#[trigger] stages[s]).declares_group(g),
        forall|g: u32, b: u32|
            #[trigger] layout.declares_binding(g, b) == exists|s: int|
                0 <= s < stages.len() && (#[trigger] stages[s]).declares_binding(g, b),
        forall|g: u32, b: u32, s: int|
            0 <= s < stages.len() && #[trigger] stages[s].declares_binding(g, b) ==> {
                &&& layout.binding_at(g, b).name == stages[s].binding_at(g, b).name
                &&& layout.binding_at(g, b).bind_type == stages[s].binding_at(g, b).bind_type
            },
        forall|g: u32, b: u32|
            #[trigger] layout.declares_binding(g, b) ==> layout.binding_at(g, b).shader_stage
                == mask_union(stages, stages.len() as int, g, b),
{
    assert forall|g: u32| layout.declares_group(g) == exists|s: int|
        0 <= s < stages.len() && (#[trigger] stages[s]).declares_group(g) by {
        if layout.declares_group(g) {
            let u = choose|u: int|
                0 <= u < layout.bind_groups@.len() && layout.bind_groups@[u]@.index == g;
            assert(gidx[u] == g);
            assert(gidx.contains(g));
        }
        if exists|s: int| 0 <= s < stages.len() && (#[trigger] stages[s]).declares_group(g) {
            assert(gidx.contains(g));
            let u = choose|u: int| 0 <= u < gidx.len() && gidx[u] == g;
            assert(layout.bind_groups@[u]@.index == g);
        }
    }
    assert forall|g: u32| #[trigger] layout.declares_group(g) implies layout.group_at(g)
        == layout.bind_groups@[choose|u: int| 0 <= u < gidx.len() && gidx[u] == g] by {
        let u = choose|u: int| 0 <= u < gidx.len() && gidx[u] == g;
        assert(layout.bind_groups@[u]@.index == g);
        let w = choose|i: int|
            0 <= i < layout.bind_groups@.len() && (#[trigger] layout.bind_groups@[i])@.index
                == g;
        assert(gidx[w] == g);
        assert(w == u);
    }
    assert forall|g: u32, b: u32| #[trigger] layout.declares_binding(g, b) == exists|s: int|
        0 <= s < stages.len() && (#[trigger] stages[s]).declares_binding(g, b) by {
        if layout.declares_binding(g, b) {
            let u = choose|u: int| 0 <= u < gidx.len() && gidx[u] == g;
            assert(layout.group_at(g) == layout.bind_groups@[u]);
        }
        if exists|s: int| 0 <= s < stages.len() && (#[trigger] stages[s]).declares_binding(
            g,
            b,
        ) {
            let s = choose|s: int|
                0 <= s < stages.len() && (#[trigger] stages[s]).declares_binding(g, b);
            assert(stages[s].declares_group(g));
            assert(layout.declares_group(g));
            let u = choose|u: int| 0 <= u < gidx.len() && gidx[u] == g;
            assert(layout.bind_groups@[u].declares_binding(b));
            assert(layout.group_at(g) == layout.bind_groups@[u]);
        }
    }
    assert forall|g: u32, b: u32, s: int|
        0 <= s < stages.len() && #[trigger] stages[s].declares_binding(g, b) implies {
        &&& layout.binding_at(g, b).name == stages[s].binding_at(g, b).name
        &&& layout.binding_at(g, b).bind_type == stages[s].binding_at(g, b).bind_type
    } by {
        assert(stages[s].declares_group(g));
        assert(layout.declares_group(g));
        let u = choose|u: int| 0 <= u < gidx.len() && gidx[u] == g;
        assert(layout.group_at(g) == layout.bind_groups@[u]);
    }
    assert forall|g: u32, b: u32| #[trigger] layout.declares_binding(g, b) implies
        layout.binding_at(g, b).shader_stage == mask_union(
        stages,
        stages.len() as int,
        g,
        b,
    ) by {
        let u = choose|u: int| 0 <= u < gidx.len() && gidx[u] == g;
        assert(layout.declares_group(g));
        assert(layout.group_at(g) == layout.bind_groups@[u]);
        assert(layout.bind_groups@[u].declares_binding(b));
    }
}

/// Type of one uniform value, as reflected from a shader.
#[derive(Debug)]
pub enum UniformProperty {
    UInt,
    Int,
    IVec2,
    Float,
    UVec4,
    Vec2,
    Vec3,
    Vec4,
    Mat3,
    Mat4,
    Struct(Vec<UniformProperty>),
    Array(Box<UniformProperty>, usize),
}

/// Size in bytes of a uniform value of this type.
pub open spec fn spec_uniform_size(p: UniformProperty) -> nat
    decreases p,
{
    match p {
        UniformProperty::UInt => 4,
        UniformProperty::Int => 4,
        UniformProperty::IVec2 => 8,
        UniformProperty::Float => 4,
        UniformProperty::UVec4 => 16,
        UniformProperty::Vec2 => 8,
        UniformProperty::Vec3 => 12,
        UniformProperty::Vec4 => 16,
        UniformProperty::Mat3 => 48,
        UniformProperty::Mat4 => 64,
        UniformProperty::Struct(ps) => spec_uniform_size_sum(ps@),
        UniformProperty::Array(q, n) => spec_uniform_size(*q) * (n as nat),
    }
}

/// Total size in bytes of a sequence of uniform values.
pub open spec fn spec_uniform_size_sum(s: Seq<UniformProperty>) -> nat
    decreases s,
{
    if s.len() == 0 {
        0
    } else {
        spec_uniform_size(s[0]) + spec_uniform_size_sum(s.drop_first())
    }
}

/// The size of this uniform type and of each of its nested parts stays
/// within `u64`.
pub open spec fn spec_uniform_size_fits(p: UniformProperty) -> bool
    decreases p,
{
    match p {
        UniformProperty::Struct(ps) => spec_uniform_size_sum(ps@) <= u64::MAX
            && spec_uniform_size_fits_all(ps@),
        UniformProperty::Array(q, n) => spec_uniform_size(*q) * n <= u64::MAX
            && spec_uniform_size_fits(*q),
        _ => true,
    }
}

/// Every uniform type in the sequence fits within `u64`.
pub open spec fn spec_uniform_size_fits_all(s: Seq<UniformProperty>) -> bool
    decreases s,
{
    s.len() == 0 || (spec_uniform_size_fits(s[0]) && spec_uniform_size_fits_all(s.drop_first()))
}

proof fn lemma_fits_all_index(s: Seq<UniformProperty>, i: int)
    requires
        spec_uniform_size_fits_all(s),
        0 <= i < s.len(),
    ensures
        spec_uniform_size_fits(s[i]),
    decreases s.len(),
{
    if i > 0 {
        lemma_fits_all_index(s.drop_first(), i - 1);
    }
}

impl UniformProperty {
    /// Size in bytes of a uniform value of this type.
    pub fn get_size(&self) -> (r: u64)
        requires
            spec_uniform_size_fits(*self),
        ensures
            r == spec_uniform_size(*self),
        decreases *self,
    {
        match self {
            UniformProperty::UInt => 4,
            UniformProperty::Int => 4,
            UniformProperty::IVec2 => 4 * 2,
            UniformProperty::Float => 4,
            UniformProperty::UVec4 => 4 * 4,
            UniformProperty::Vec2 => 4 * 2,
            UniformProperty::Vec3 => 4 * 3,
            UniformProperty::Vec4 => 4 * 4,
            UniformProperty::Mat3 => 4 * 4 * 3,
            UniformProperty::Mat4 => 4 * 4 * 4,
            UniformProperty::Struct(properties) => {
                let mut total: u64 = 0;
                let mut i: usize = 0;
                proof {
                    assert(properties@.skip(0) =~= properties@);
                }
                while i < properties.len()
                    invariant
                        *self == UniformProperty::Struct(*properties),
                        i <= properties@.len(),
                        total + spec_uniform_size_sum(properties@.skip(i as int))
                            == spec_uniform_size_sum(properties@),
                        spec_uniform_size_sum(properties@) <= u64::MAX,
                        spec_uniform_size_fits_all(properties@),
                    decreases properties@.len() - i,
                {
                    proof {
                        assert(properties@.skip(i as int)[0] == properties@[i as int]);
                        assert(properties@.skip(i as int).drop_first() =~= properties@.skip(
                            i as int + 1,
                        ));
                        lemma_fits_all_index(properties@, i as int);
                        assert(*self == UniformProperty::Struct(*properties));
                        assert(*properties == (*self)->Struct_0);
                        assert(decreases_to!(*self => (*self)->Struct_0));
                        assert(decreases_to!((*self)->Struct_0 => (*self)->Struct_0@));
                        assert(decreases_to!((*self)->Struct_0@ => (*self)->Struct_0@[i as int]));
                        assert(decreases_to!(*self => properties@[i as int]));
                    }
                    let s = properties[i].get_size();
                    total = total + s;
                    i = i + 1;
                }
                proof {
                    assert(properties@.skip(properties@.len() as int) =~= Seq::<
                        UniformProperty,
                    >::empty());
                }
                total
            },
            UniformProperty::Array(property, length) => {
                let s = property.get_size();
                s * (*length as u64)
            },
        }
    }
}

} // verus!
