//! The physically-based rendering graph: wires the transform, material
//! and light feeds, the shadow map texture, the shadow pass and the main
//! pass into one render graph. Building it cannot fail: every node name
//! is fresh, the one slot edge type-checks, and every ordering edge runs
//! from an earlier node to a later one, so no cycle can form.

use vstd::prelude::*;
use crate::graph::{first_node_named, lemma_first_node_named_at, lemma_first_node_named_none,
    GraphError, RenderGraph, SlotEdge};
use crate::resource_cache::{TextureDescriptor, TextureDimension, TextureFormat};
use crate::schedule::lemma_forward_edges_acyclic;
use crate::slot::{ResourceType, SlotInfo};
use crate::view::{TEXTURE_USAGE_RENDER_ATTACHMENT, TEXTURE_USAGE_TEXTURE_BINDING};

verus! {

/// How many point lights the shadow map accommodates.
pub const MAX_POINT_LIGHTS: usize = 10;

/// Width of the shadow map in texels.
pub const SHADOW_WIDTH: u32 = 1024;

/// Height of the shadow map in texels.
pub const SHADOW_HEIGHT: u32 = 1024;

/// Marks an entity drawn by the shadow pass.
#[derive(Clone, Copy, PartialEq, Eq, Structural, Default, Debug)]
pub struct ShadowPass;

/// The descriptor of the shadow map: one square depth layer per cube
/// face of each point light, sampled by the main pass.
pub fn shadow_texture_descriptor() -> (r: TextureDescriptor)
    ensures
        r.width == SHADOW_WIDTH,
        r.height == SHADOW_HEIGHT,
        r.depth_or_array_layers == MAX_POINT_LIGHTS * 6,
        r.mip_level_count == 1,
        r.sample_count == 1,
        r.dimension == TextureDimension::D2,
        r.format == TextureFormat::Depth32Float,
        r.usage == TEXTURE_USAGE_RENDER_ATTACHMENT | TEXTURE_USAGE_TEXTURE_BINDING,
{
    TextureDescriptor {
        width: SHADOW_WIDTH,
        height: SHADOW_HEIGHT,
        depth_or_array_layers: 60,
        mip_level_count: 1,
        sample_count: 1,
        dimension: TextureDimension::D2,
        format: TextureFormat::Depth32Float,
        usage: TEXTURE_USAGE_RENDER_ATTACHMENT | TEXTURE_USAGE_TEXTURE_BINDING,
    }
}

/// Populates a fresh graph with the rendering topology: the transform,
/// shadow transform, material and light feeds, the camera, the shadow
/// texture, the shadow pass and the main pass, with the shadow texture
/// bound to the shadow pass's input slot and every pass ordered after
/// what it consumes. Building cannot fail.
#[verifier::rlimit(100)]
pub fn add_pbr_graph(graph: &mut RenderGraph) -> (r: Result<(), GraphError>)
    requires
        old(graph).wf(),
        old(graph).n_nodes() == 0,
        old(graph).spec_slot_edges().len() == 0,
        old(graph).spec_deps().len() == 0,
    ensures
        r is Ok,
        final(graph).wf(),
        final(graph).n_nodes() == 8,
        first_node_named(final(graph).spec_nodes(), "transform"@) == Some(0int),
        first_node_named(final(graph).spec_nodes(), "shadows_transform"@) == Some(1int),
        first_node_named(final(graph).spec_nodes(), "standard_material"@) == Some(2int),
        first_node_named(final(graph).spec_nodes(), "lights"@) == Some(3int),
        first_node_named(final(graph).spec_nodes(), "camera_3d"@) == Some(4int),
        first_node_named(final(graph).spec_nodes(), "shadow_texture"@) == Some(5int),
        first_node_named(final(graph).spec_nodes(), "shadows"@) == Some(6int),
        first_node_named(final(graph).spec_nodes(), "main_pass"@) == Some(7int),
        final(graph).spec_slot_edges() == seq![
            SlotEdge { src_node: 5usize, src_slot: 0usize, dst_node: 6usize, dst_slot: 0usize },
        ],
        final(graph).spec_deps() == seq![
            (3usize, 6usize),
            (1usize, 6usize),
            (4usize, 6usize),
            (5usize, 6usize),
            (6usize, 7usize),
            (2usize, 7usize),
            (0usize, 7usize),
            (3usize, 7usize),
        ],
{
    proof {
        reveal_strlit("transform");
        reveal_strlit("shadows_transform");
        reveal_strlit("standard_material");
        reveal_strlit("lights");
        reveal_strlit("camera_3d");
        reveal_strlit("shadow_texture");
        reveal_strlit("shadows");
        reveal_strlit("main_pass");
        reveal_strlit("texture");
        lemma_distinct_names();
    }
    let ghost gp_r0 = *graph;
    let r0 = graph.add_system_node("transform".to_string());
    if r0.is_err() {
        proof {
            lemma_first_node_named_none(gp_r0.spec_nodes(), "transform"@);
            assert(false);
        }
        return Err(GraphError::NodeAlreadyExists);
    }
    proof {
        assert(graph.spec_nodes()[0].name@ == "transform"@);
    }
    let ghost gp_r1 = *graph;
    let r1 = graph.add_system_node("shadows_transform".to_string());
    if r1.is_err() {
        proof {
            lemma_first_node_named_none(gp_r1.spec_nodes(), "shadows_transform"@);
            assert(false);
        }
        return Err(GraphError::NodeAlreadyExists);
    }
    proof {
        assert(graph.spec_nodes()[0].name@ == "transform"@);
        assert(graph.spec_nodes()[1].name@ == "shadows_transform"@);
    }
    let ghost gp_r2 = *graph;
    let r2 = graph.add_system_node("standard_material".to_string());
    if r2.is_err() {
        proof {
            lemma_first_node_named_none(gp_r2.spec_nodes(), "standard_material"@);
            assert(false);
        }
        return Err(GraphError::NodeAlreadyExists);
    }
    proof {
        assert(graph.spec_nodes()[0].name@ == "transform"@);
        assert(graph.spec_nodes()[1].name@ == "shadows_transform"@);
        assert(graph.spec_nodes()[2].name@ == "standard_material"@);
    }
    let ghost gp_r3 = *graph;
    let r3 = graph.add_system_node("lights".to_string());
    if r3.is_err() {
        proof {
            lemma_first_node_named_none(gp_r3.spec_nodes(), "lights"@);
            assert(false);
        }
        return Err(GraphError::NodeAlreadyExists);
    }
    proof {
        assert(graph.spec_nodes()[0].name@ == "transform"@);
        assert(graph.spec_nodes()[1].name@ == "shadows_transform"@);
        assert(graph.spec_nodes()[2].name@ == "standard_material"@);
        assert(graph.spec_nodes()[3].name@ == "lights"@);
    }
    let ghost gp_r4 = *graph;
    let r4 = graph.add_system_node("camera_3d".to_string());
    if r4.is_err() {
        proof {
            lemma_first_node_named_none(gp_r4.spec_nodes(), "camera_3d"@);
            assert(false);
        }
        return Err(GraphError::NodeAlreadyExists);
    }
    proof {
        assert(graph.spec_nodes()[0].name@ == "transform"@);
        assert(graph.spec_nodes()[1].name@ == "shadows_transform"@);
        assert(graph.spec_nodes()[2].name@ == "standard_material"@);
        assert(graph.spec_nodes()[3].name@ == "lights"@);
        assert(graph.spec_nodes()[4].name@ == "camera_3d"@);
    }
    let mut texture_outputs: Vec<SlotInfo> = Vec::new();
    let texture_slot = SlotInfo::new("texture".to_string(), ResourceType::Texture);
    texture_outputs.push(texture_slot);
    let ghost gp_r5 = *graph;
    let r5 = graph.add_node("shadow_texture".to_string(), Vec::new(), texture_outputs);
    if r5.is_err() {
        proof {
            lemma_first_node_named_none(gp_r5.spec_nodes(), "shadow_texture"@);
            assert(false);
        }
        return Err(GraphError::NodeAlreadyExists);
    }
    proof {
        assert(graph.spec_nodes()[0].name@ == "transform"@);
        assert(graph.spec_nodes()[1].name@ == "shadows_transform"@);
        assert(graph.spec_nodes()[2].name@ == "standard_material"@);
        assert(graph.spec_nodes()[3].name@ == "lights"@);
        assert(graph.spec_nodes()[4].name@ == "camera_3d"@);
        assert(graph.spec_nodes()[5].name@ == "shadow_texture"@);
        assert(graph.spec_nodes()[5].outputs@.len() == 1);
        assert(graph.spec_nodes()[5].outputs@[0].name@ == "texture"@);
        assert(graph.spec_nodes()[5].outputs@[0].resource_type == ResourceType::Texture);
    }
    let mut shadows_inputs: Vec<SlotInfo> = Vec::new();
    let shadow_slot = SlotInfo::new("shadow_texture".to_string(), ResourceType::Texture);
    shadows_inputs.push(shadow_slot);
    let ghost gp_r6 = *graph;
    let r6 = graph.add_node("shadows".to_string(), shadows_inputs, Vec::new());
    if r6.is_err() {
        proof {
            lemma_first_node_named_none(gp_r6.spec_nodes(), "shadows"@);
            assert(false);
        }
        return Err(GraphError::NodeAlreadyExists);
    }
    proof {
        assert(graph.spec_nodes()[0].name@ == "transform"@);
        assert(graph.spec_nodes()[1].name@ == "shadows_transform"@);
        assert(graph.spec_nodes()[2].name@ == "standard_material"@);
        assert(graph.spec_nodes()[3].name@ == "lights"@);
        assert(graph.spec_nodes()[4].name@ == "camera_3d"@);
        assert(graph.spec_nodes()[5].name@ == "shadow_texture"@);
        assert(graph.spec_nodes()[6].name@ == "shadows"@);
        assert(graph.spec_nodes()[6].inputs@.len() == 1);
        assert(graph.spec_nodes()[6].inputs@[0].name@ == "shadow_texture"@);
        assert(graph.spec_nodes()[6].inputs@[0].resource_type == ResourceType::Texture);
    }
    let ghost gp_r7 = *graph;
    let r7 = graph.add_system_node("main_pass".to_string());
    if r7.is_err() {
        proof {
            lemma_first_node_named_none(gp_r7.spec_nodes(), "main_pass"@);
            assert(false);
        }
        return Err(GraphError::NodeAlreadyExists);
    }
    proof {
        assert(graph.spec_nodes()[0].name@ == "transform"@);
        assert(graph.spec_nodes()[1].name@ == "shadows_transform"@);
        assert(graph.spec_nodes()[2].name@ == "standard_material"@);
        assert(graph.spec_nodes()[3].name@ == "lights"@);
        assert(graph.spec_nodes()[4].name@ == "camera_3d"@);
        assert(graph.spec_nodes()[5].name@ == "shadow_texture"@);
        assert(graph.spec_nodes()[6].name@ == "shadows"@);
        assert(graph.spec_nodes()[7].name@ == "main_pass"@);
        assert(graph.n_nodes() == 8);
        lemma_names(graph);
    }
    let lights_name = "lights".to_string();
    let shadows_name = "shadows".to_string();
    let shadows_transform_name = "shadows_transform".to_string();
    let camera_name = "camera_3d".to_string();
    let shadow_texture_name = "shadow_texture".to_string();
    let texture_name = "texture".to_string();
    let shadow_input_name = "shadow_texture".to_string();
    let main_pass_name = "main_pass".to_string();
    let material_name = "standard_material".to_string();
    let transform_name = "transform".to_string();

    let ghost g0 = *graph;
    let e0 = graph.add_node_edge(&lights_name, &shadows_name);
    proof {
        lemma_names(&g0);
        assert(e0 is Err ==> e0->Err_0 == GraphError::CycleWouldForm);
        lemma_edge_ok(&g0, graph, 3, 6, e0, seq![(3usize, 6usize)]);
    }
    if e0.is_err() {
        return e0;
    }
    let ghost g1 = *graph;
    let e1 = graph.add_node_edge(&shadows_transform_name, &shadows_name);
    proof {
        lemma_names(&g1);
        assert(e1 is Err ==> e1->Err_0 == GraphError::CycleWouldForm);
        lemma_edge_ok(&g1, graph, 1, 6, e1, seq![(3usize, 6usize), (1usize, 6usize)]);
    }
    if e1.is_err() {
        return e1;
    }
    let ghost g2 = *graph;
    let e2 = graph.add_node_edge(&camera_name, &shadows_name);
    proof {
        lemma_names(&g2);
        assert(e2 is Err ==> e2->Err_0 == GraphError::CycleWouldForm);
        lemma_edge_ok(
            &g2,
            graph,
            4,
            6,
            e2,
            seq![(3usize, 6usize), (1usize, 6usize), (4usize, 6usize)],
        );
    }
    if e2.is_err() {
        return e2;
    }
    let ghost g3 = *graph;
    let e3 = graph.add_slot_edge(
        &shadow_texture_name,
        &texture_name,
        &shadows_name,
        &shadow_input_name,
    );
    proof {
        lemma_names(&g3);
        reveal_strlit("texture");
        reveal_strlit("shadow_texture");
        crate::graph::lemma_first_slot_named_at(
            g3.spec_nodes()[5].outputs@,
            "texture"@,
            0,
        );
        crate::graph::lemma_first_slot_named_at(
            g3.spec_nodes()[6].inputs@,
            "shadow_texture"@,
            0,
        );
        let edge = SlotEdge { src_node: 5usize, src_slot: 0usize, dst_node: 6usize, dst_slot: 0usize };
        assert(g3.spec_resolve_slot_edge("shadow_texture"@, "texture"@, "shadows"@, "shadow_texture"@)
            == Ok::<SlotEdge, GraphError>(edge));
        let expected = seq![(3usize, 6usize), (1usize, 6usize), (4usize, 6usize), (5usize, 6usize)];
        match e3 {
            Ok(_) => {
                assert(graph.spec_deps() =~= expected);
                assert(graph.spec_slot_edges() =~= seq![edge]);
            },
            Err(e) => {
                assert(e == GraphError::CycleWouldForm);
                assert(g3.dep_edges().push((5int, 6int)) =~= crate::graph::spec_dep_edges(
                    expected,
                ));
                lemma_expected_acyclic(expected);
                assert(false);
            },
        }
    }
    if e3.is_err() {
        return e3;
    }
    let ghost g4 = *graph;
    let e4 = graph.add_node_edge(&shadows_name, &main_pass_name);
    proof {
        lemma_names(&g4);
        assert(e4 is Err ==> e4->Err_0 == GraphError::CycleWouldForm);
        lemma_edge_ok(
            &g4,
            graph,
            6,
            7,
            e4,
            seq![
                (3usize, 6usize),
                (1usize, 6usize),
                (4usize, 6usize),
                (5usize, 6usize),
                (6usize, 7usize),
            ],
        );
    }
    if e4.is_err() {
        return e4;
    }
    let ghost g5 = *graph;
    let e5 = graph.add_node_edge(&material_name, &main_pass_name);
    proof {
        lemma_names(&g5);
        assert(e5 is Err ==> e5->Err_0 == GraphError::CycleWouldForm);
        lemma_edge_ok(
            &g5,
            graph,
            2,
            7,
            e5,
            seq![
                (3usize, 6usize),
                (1usize, 6usize),
                (4usize, 6usize),
                (5usize, 6usize),
                (6usize, 7usize),
                (2usize, 7usize),
            ],
        );
    }
    if e5.is_err() {
        return e5;
    }
    let ghost g6 = *graph;
    let e6 = graph.add_node_edge(&transform_name, &main_pass_name);
    proof {
        lemma_names(&g6);
        assert(e6 is Err ==> e6->Err_0 == GraphError::CycleWouldForm);
        lemma_edge_ok(
            &g6,
            graph,
            0,
            7,
            e6,
            seq![
                (3usize, 6usize),
                (1usize, 6usize),
                (4usize, 6usize),
                (5usize, 6usize),
                (6usize, 7usize),
                (2usize, 7usize),
                (0usize, 7usize),
            ],
        );
    }
    if e6.is_err() {
        return e6;
    }
    let ghost g7 = *graph;
    let e7 = graph.add_node_edge(&lights_name, &main_pass_name);
    proof {
        lemma_names(&g7);
        assert(e7 is Err ==> e7->Err_0 == GraphError::CycleWouldForm);
        lemma_edge_ok(
            &g7,
            graph,
            3,
            7,
            e7,
            seq![
                (3usize, 6usize),
                (1usize, 6usize),
                (4usize, 6usize),
                (5usize, 6usize),
                (6usize, 7usize),
                (2usize, 7usize),
                (0usize, 7usize),
                (3usize, 7usize),
            ],
        );
    }
    if e7.is_err() {
        return e7;
    }
    proof {
        lemma_names(graph);
    }
    Ok(())
}

/// Every expected constraint runs from an earlier node to a later one,
/// so the expected constraint set is acyclic.
proof fn lemma_expected_acyclic(expected: Seq<(usize, usize)>)
    requires
        forall|i: int|
            0 <= i < expected.len() ==> (#[trigger] expected[i]).0 < expected[i].1,
    ensures
        !crate::schedule::has_cycle(crate::graph::spec_dep_edges(expected)),
{
    let edges = crate::graph::spec_dep_edges(expected);
    assert forall|i: int| 0 <= i < edges.len() implies (#[trigger] edges[i]).0 < edges[i].1 by {
        assert(edges[i] == (expected[i].0 as int, expected[i].1 as int));
    }
    lemma_forward_edges_acyclic(edges);
}

/// An ordering edge between two resolved nodes of the rendering topology
/// succeeds and leaves exactly the expected constraint list.
proof fn lemma_edge_ok(
    pre: &RenderGraph,
    post: &RenderGraph,
    b: usize,
    a: usize,
    r: Result<(), GraphError>,
    expected: Seq<(usize, usize)>,
)
    requires
        expected.len() >= 1,
        expected[expected.len() - 1] == (b, a),
        pre.spec_deps().len() == expected.len() - 1,
        forall|i: int| 0 <= i < expected.len() - 1 ==> pre.spec_deps()[i] == expected[i],
        forall|i: int|
            0 <= i < expected.len() ==> (#[trigger] expected[i]).0 < expected[i].1,
        match r {
            Ok(_) => post.spec_deps() == pre.spec_deps().push((b, a)),
            Err(e) => e == GraphError::CycleWouldForm && crate::schedule::has_cycle(
                pre.dep_edges().push((b as int, a as int)),
            ),
        },
    ensures
        r is Ok,
        post.spec_deps() == expected,
{
    match r {
        Ok(_) => {
            assert(post.spec_deps() =~= expected);
        },
        Err(_) => {
            let pushed = pre.dep_edges().push((b as int, a as int));
            assert(pushed =~= crate::graph::spec_dep_edges(expected)) by {
                assert forall|i: int|
                    0 <= i < expected.len() implies pushed[i]
                    == crate::graph::spec_dep_edges(expected)[i] by {
                    assert(crate::graph::spec_dep_edges(expected)[i] == (
                        expected[i].0 as int,
                        expected[i].1 as int,
                    ));
                    if i < expected.len() - 1 {
                        assert(pre.dep_edges()[i] == (
                            pre.spec_deps()[i].0 as int,
                            pre.spec_deps()[i].1 as int,
                        ));
                    }
                }
            }
            lemma_expected_acyclic(expected);
            assert(false);
        },
    }
}

/// The names of the rendering topology's nodes are pairwise distinct.
proof fn lemma_distinct_names()
    ensures
        "transform"@ != "shadows_transform"@,
        "transform"@ != "standard_material"@,
        "transform"@ != "lights"@,
        "transform"@ != "camera_3d"@,
        "transform"@ != "shadow_texture"@,
        "transform"@ != "shadows"@,
        "transform"@ != "main_pass"@,
        "shadows_transform"@ != "standard_material"@,
        "shadows_transform"@ != "lights"@,
        "shadows_transform"@ != "camera_3d"@,
        "shadows_transform"@ != "shadow_texture"@,
        "shadows_transform"@ != "shadows"@,
        "shadows_transform"@ != "main_pass"@,
        "standard_material"@ != "lights"@,
        "standard_material"@ != "camera_3d"@,
        "standard_material"@ != "shadow_texture"@,
        "standard_material"@ != "shadows"@,
        "standard_material"@ != "main_pass"@,
        "lights"@ != "camera_3d"@,
        "lights"@ != "shadow_texture"@,
        "lights"@ != "shadows"@,
        "lights"@ != "main_pass"@,
        "camera_3d"@ != "shadow_texture"@,
        "camera_3d"@ != "shadows"@,
        "camera_3d"@ != "main_pass"@,
        "shadow_texture"@ != "shadows"@,
        "shadow_texture"@ != "main_pass"@,
        "shadows"@ != "main_pass"@,
{
    reveal_strlit("transform");
    reveal_strlit("shadows_transform");
    reveal_strlit("standard_material");
    reveal_strlit("lights");
    reveal_strlit("camera_3d");
    reveal_strlit("shadow_texture");
    reveal_strlit("shadows");
    reveal_strlit("main_pass");
    assert("transform"@.len() == 9);
    assert("shadows_transform"@.len() == 17);
    assert("standard_material"@.len() == 17);
    assert("lights"@.len() == 6);
    assert("camera_3d"@.len() == 9);
    assert("shadow_texture"@.len() == 14);
    assert("shadows"@.len() == 7);
    assert("main_pass"@.len() == 9);
    assert("transform"@ != "camera_3d"@) by {
        if "transform"@ == "camera_3d"@ {
            assert("transform"@[0] == "camera_3d"@[0]);
        }
    }
    assert("transform"@ != "main_pass"@) by {
        if "transform"@ == "main_pass"@ {
            assert("transform"@[0] == "main_pass"@[0]);
        }
    }
    assert("camera_3d"@ != "main_pass"@) by {
        if "camera_3d"@ == "main_pass"@ {
            assert("camera_3d"@[0] == "main_pass"@[0]);
        }
    }
    assert("shadows_transform"@ != "standard_material"@) by {
        if "shadows_transform"@ == "standard_material"@ {
            assert("shadows_transform"@[1] == "standard_material"@[1]);
        }
    }
}

/// The eight nodes of the rendering topology resolve to their insertion
/// positions.
proof fn lemma_names(graph: &RenderGraph)
    requires
        graph.n_nodes() == 8,
        graph.spec_nodes()[0].name@ == "transform"@,
        graph.spec_nodes()[1].name@ == "shadows_transform"@,
        graph.spec_nodes()[2].name@ == "standard_material"@,
        graph.spec_nodes()[3].name@ == "lights"@,
        graph.spec_nodes()[4].name@ == "camera_3d"@,
        graph.spec_nodes()[5].name@ == "shadow_texture"@,
        graph.spec_nodes()[6].name@ == "shadows"@,
        graph.spec_nodes()[7].name@ == "main_pass"@,
    ensures
        first_node_named(graph.spec_nodes(), "transform"@) == Some(0int),
        first_node_named(graph.spec_nodes(), "shadows_transform"@) == Some(1int),
        first_node_named(graph.spec_nodes(), "standard_material"@) == Some(2int),
        first_node_named(graph.spec_nodes(), "lights"@) == Some(3int),
        first_node_named(graph.spec_nodes(), "camera_3d"@) == Some(4int),
        first_node_named(graph.spec_nodes(), "shadow_texture"@) == Some(5int),
        first_node_named(graph.spec_nodes(), "shadows"@) == Some(6int),
        first_node_named(graph.spec_nodes(), "main_pass"@) == Some(7int),
{
    reveal_strlit("transform");
    reveal_strlit("shadows_transform");
    reveal_strlit("standard_material");
    reveal_strlit("lights");
    reveal_strlit("camera_3d");
    reveal_strlit("shadow_texture");
    reveal_strlit("shadows");
    reveal_strlit("main_pass");
    lemma_distinct_names();
    let s = graph.spec_nodes();
    lemma_first_node_named_at(s, "transform"@, 0);
    lemma_first_node_named_at(s, "shadows_transform"@, 1);
    lemma_first_node_named_at(s, "standard_material"@, 2);
    lemma_first_node_named_at(s, "lights"@, 3);
    lemma_first_node_named_at(s, "camera_3d"@, 4);
    lemma_first_node_named_at(s, "shadow_texture"@, 5);
    lemma_first_node_named_at(s, "shadows"@, 6);
    lemma_first_node_named_at(s, "main_pass"@, 7);
}

} // verus!
