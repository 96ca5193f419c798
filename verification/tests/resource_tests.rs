use render_graph::main_pass_driver::MainPassDriverNode;
use render_graph::pbr_graph::{add_pbr_graph, shadow_texture_descriptor};
use render_graph::graph::RenderGraph;
use render_graph::resource_cache::{TextureCache, TextureDescriptor, TextureDimension,
    TextureFormat};
use render_graph::slot::SlotValue;
use render_graph::texture_node::TextureNode;
use render_graph::view::{prepare_core_views, prepare_view_targets, resolve_render_targets,
    CameraSurface, Msaa, RenderTarget, ViewMainTexture, ViewTarget};

fn descriptor(width: u32) -> TextureDescriptor {
    TextureDescriptor {
        width,
        height: 256,
        depth_or_array_layers: 1,
        mip_level_count: 1,
        sample_count: 1,
        dimension: TextureDimension::D2,
        format: TextureFormat::Rgba8UnormSrgb,
        usage: 16,
    }
}

#[test]
fn identical_descriptors_share_one_handle_within_a_frame() {
    let mut cache = TextureCache::new(3);
    let first = cache.get(descriptor(128));
    let second = cache.get(descriptor(128));
    assert_eq!(first, second);
    let other = cache.get(descriptor(256));
    assert_ne!(first, other);
}

#[test]
fn unused_entries_are_evicted_after_the_configured_frames() {
    let mut cache = TextureCache::new(1);
    let original = cache.get(descriptor(128));
    cache.end_frame();
    // still within the retention window: the same handle comes back
    assert_eq!(cache.get(descriptor(128)), original);
    let mut stale = TextureCache::new(1);
    let old_handle = stale.get(descriptor(128));
    stale.end_frame();
    stale.end_frame();
    // two frames unused with a one-frame retention: the entry is gone,
    // so a new handle is allocated
    let fresh = stale.get(descriptor(128));
    assert_ne!(fresh, old_handle);
}

#[test]
fn used_entries_survive_frame_boundaries() {
    let mut cache = TextureCache::new(1);
    let handle = cache.get(descriptor(128));
    cache.end_frame();
    assert_eq!(cache.get(descriptor(128)), handle);
    cache.end_frame();
    assert_eq!(cache.get(descriptor(128)), handle);
}

#[test]
fn texture_node_allocates_once_and_republishes() {
    let mut cache = TextureCache::new(3);
    let mut node = TextureNode::new(shadow_texture_descriptor(), None);
    let first = node.update(&mut cache);
    let second = node.update(&mut cache);
    assert_eq!(first, second);
    assert_eq!(first.len(), 1);
    assert!(matches!(first[0], Some(SlotValue::Texture(_))));
}

#[test]
fn view_target_with_msaa_resolves_into_the_main_texture() {
    let mut cache = TextureCache::new(3);
    let msaa = Msaa { samples: 4 };
    let target = ViewTarget::new(&mut cache, &msaa, 320, 240, 99, false);
    assert_eq!(target.out_texture, 99);
    let attachment = target.get_color_attachment_hdr();
    match target.main_texture {
        ViewMainTexture::NoHdr { texture, sampled_texture } => {
            let sampled = sampled_texture.unwrap();
            assert_eq!(attachment.view, sampled);
            assert_eq!(attachment.resolve_target, Some(texture));
            assert_ne!(sampled, texture);
        }
        ViewMainTexture::Hdr { .. } => panic!("not a high-dynamic-range target"),
    }
}

#[test]
fn view_target_without_msaa_renders_straight_into_the_main_texture() {
    let mut cache = TextureCache::new(3);
    let msaa = Msaa { samples: 1 };
    let target = ViewTarget::new(&mut cache, &msaa, 320, 240, 99, true);
    let attachment = target.get_color_attachment_hdr();
    match target.main_texture {
        ViewMainTexture::Hdr { hdr_texture, sampled_hdr_texture, ldr_texture } => {
            assert!(sampled_hdr_texture.is_none());
            assert_eq!(attachment.view, hdr_texture);
            assert_eq!(attachment.resolve_target, None);
            assert_ne!(hdr_texture, ldr_texture);
        }
        ViewMainTexture::NoHdr { .. } => panic!("expected a high-dynamic-range target"),
    }
}

#[test]
fn rendering_topology_builds_and_schedules_in_insertion_order() {
    let mut graph = RenderGraph::new();
    add_pbr_graph(&mut graph).unwrap();
    assert_eq!(graph.topo_order(), vec![0, 1, 2, 3, 4, 5, 6, 7]);
}

#[test]
fn main_pass_driver_runs_one_sub_graph_per_extracted_camera() {
    let driver = MainPassDriverNode;
    let runs = driver.run(Some((10, 20)), Some((30, 40, 50)));
    assert_eq!(runs.len(), 2);
    assert_eq!(runs[0].sub_graph, "draw_2d");
    assert_eq!(
        runs[0].inputs,
        vec![SlotValue::Entity(10), SlotValue::Texture(20)]
    );
    assert_eq!(runs[1].sub_graph, "draw_3d");
    assert_eq!(
        runs[1].inputs,
        vec![
            SlotValue::Entity(30),
            SlotValue::Texture(40),
            SlotValue::Texture(50),
        ]
    );
    let none = driver.run(None, None);
    assert!(none.is_empty());
    let only_3d = driver.run(None, Some((1, 2, 3)));
    assert_eq!(only_3d.len(), 1);
    assert_eq!(only_3d[0].sub_graph, "draw_3d");
}

#[test]
fn cameras_without_a_surface_are_skipped_not_fatal() {
    let mut cache = TextureCache::new(3);
    let msaa = Msaa { samples: 1 };
    let cameras = vec![
        CameraSurface { width: 320, height: 240, hdr: false, swap_chain_texture: Some(7) },
        CameraSurface { width: 320, height: 240, hdr: false, swap_chain_texture: None },
    ];
    let targets = prepare_view_targets(&mut cache, &msaa, &cameras);
    assert_eq!(targets.len(), 2);
    assert_eq!(targets[0].as_ref().unwrap().out_texture, 7);
    assert!(targets[1].is_none());
}

#[test]
fn identical_camera_surfaces_share_cached_textures() {
    let mut cache = TextureCache::new(3);
    let msaa = Msaa { samples: 1 };
    let camera = CameraSurface { width: 320, height: 240, hdr: false, swap_chain_texture: Some(7) };
    let cameras = vec![camera, camera];
    let targets = prepare_view_targets(&mut cache, &msaa, &cameras);
    let first = match targets[0].as_ref().unwrap().main_texture {
        ViewMainTexture::NoHdr { texture, .. } => texture,
        ViewMainTexture::Hdr { .. } => panic!("not a high-dynamic-range target"),
    };
    let second = match targets[1].as_ref().unwrap().main_texture {
        ViewMainTexture::NoHdr { texture, .. } => texture,
        ViewMainTexture::Hdr { .. } => panic!("not a high-dynamic-range target"),
    };
    assert_eq!(first, second);
}

#[test]
fn render_targets_resolve_to_surfaces_or_fixed_textures() {
    let windows = vec![(1u64, Some(100u64)), (2u64, None)];
    let targets = vec![
        RenderTarget::Texture(55),
        RenderTarget::Window(1),
        RenderTarget::Window(2),
        RenderTarget::Window(9),
    ];
    let resolved = resolve_render_targets(&targets, &windows);
    assert_eq!(resolved, vec![Some(55), Some(100), None, None]);
}

#[test]
fn depth_textures_are_cached_per_view_size() {
    let mut cache = TextureCache::new(3);
    let sizes = vec![(320u32, 240u32), (320u32, 240u32), (640u32, 480u32)];
    let depths = prepare_core_views(&mut cache, &sizes);
    assert_eq!(depths.len(), 3);
    assert_eq!(depths[0].texture, depths[1].texture);
    assert_ne!(depths[0].texture, depths[2].texture);
}

#[test]
fn frame_over_the_rendering_topology_feeds_the_shadow_pass_its_texture() {
    let mut graph = RenderGraph::new();
    add_pbr_graph(&mut graph).unwrap();
    let mut cache = TextureCache::new(3);
    let shadow_map = cache.get(shadow_texture_descriptor());
    let mut frame = graph.begin_frame();
    let mut shadow_input = None;
    while let Some(node) = frame.current_node() {
        let inputs = frame.gather_inputs().unwrap();
        if node == 6 {
            // the shadow pass's one input resolved to the texture the
            // shadow texture node produced this frame
            shadow_input = Some(inputs[0]);
        }
        let outputs = if node == 5 {
            vec![Some(SlotValue::Texture(shadow_map))]
        } else {
            Vec::new()
        };
        frame.complete_node(outputs).unwrap();
    }
    assert_eq!(shadow_input, Some(SlotValue::Texture(shadow_map)));
}
