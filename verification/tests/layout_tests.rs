use render_graph::layout::{BindGroupDescriptor, BindType, BindingDescriptor, PipelineLayout,
    PushConstantRange, ShaderLayout, UniformProperty, VertexBufferLayout};

fn binding(index: u32, name: &str, bind_type: BindType, mask: u32) -> BindingDescriptor {
    BindingDescriptor {
        name: name.to_string(),
        index,
        bind_type,
        shader_stage: mask,
    }
}

fn stage(groups: Vec<BindGroupDescriptor>) -> ShaderLayout {
    ShaderLayout {
        bind_groups: groups,
        vertex_buffer_layout: vec![],
        push_constant_ranges: vec![],
    }
}

#[test]
fn two_stages_merge_into_one_binding_with_mask_union() {
    // Both stages declare (group 0, index 1, "Foo", Uniform): the merged
    // binding carries the union of the visibility masks.
    let vertex = stage(vec![BindGroupDescriptor {
        index: 0,
        bindings: vec![binding(1, "Foo", BindType::Uniform, 1)],
    }]);
    let fragment = stage(vec![BindGroupDescriptor {
        index: 0,
        bindings: vec![binding(1, "Foo", BindType::Uniform, 2)],
    }]);
    let layout = PipelineLayout::from_shader_layouts(&vec![vertex, fragment]).unwrap();
    assert_eq!(layout.bind_groups.len(), 1);
    assert_eq!(layout.bind_groups[0].index, 0);
    assert_eq!(layout.bind_groups[0].bindings.len(), 1);
    let merged = &layout.bind_groups[0].bindings[0];
    assert_eq!(merged.index, 1);
    assert_eq!(merged.name, "Foo");
    assert_eq!(merged.bind_type, BindType::Uniform);
    assert_eq!(merged.shader_stage, 3);
}

#[test]
fn stage_declaring_other_name_at_same_index_conflicts() {
    let vertex = stage(vec![BindGroupDescriptor {
        index: 0,
        bindings: vec![binding(1, "Foo", BindType::Uniform, 1)],
    }]);
    let fragment = stage(vec![BindGroupDescriptor {
        index: 0,
        bindings: vec![binding(1, "Foo", BindType::Uniform, 2)],
    }]);
    let third = stage(vec![BindGroupDescriptor {
        index: 0,
        bindings: vec![binding(1, "Bar", BindType::Uniform, 4)],
    }]);
    let err = PipelineLayout::from_shader_layouts(&vec![vertex, fragment, third]).unwrap_err();
    assert_eq!(err.group_index, 0);
    assert_eq!(err.binding_index, 1);
    assert_eq!(err.second_stage, 2);
}

#[test]
fn differing_bind_type_at_same_index_conflicts() {
    let vertex = stage(vec![BindGroupDescriptor {
        index: 2,
        bindings: vec![binding(0, "Foo", BindType::Uniform, 1)],
    }]);
    let fragment = stage(vec![BindGroupDescriptor {
        index: 2,
        bindings: vec![binding(0, "Foo", BindType::StorageBuffer, 2)],
    }]);
    let err = PipelineLayout::from_shader_layouts(&vec![vertex, fragment]).unwrap_err();
    assert_eq!(err.group_index, 2);
    assert_eq!(err.binding_index, 0);
}

#[test]
fn merged_groups_are_sorted_ascending_by_index() {
    let vertex = stage(vec![
        BindGroupDescriptor {
            index: 2,
            bindings: vec![binding(0, "High", BindType::Uniform, 1)],
        },
        BindGroupDescriptor {
            index: 0,
            bindings: vec![binding(0, "Low", BindType::Uniform, 1)],
        },
    ]);
    let fragment = stage(vec![BindGroupDescriptor {
        index: 1,
        bindings: vec![binding(0, "Mid", BindType::Sampler, 2)],
    }]);
    let layout = PipelineLayout::from_shader_layouts(&vec![vertex, fragment]).unwrap();
    let indices: Vec<u32> = layout.bind_groups.iter().map(|g| g.index).collect();
    assert_eq!(indices, vec![0, 1, 2]);
}

#[test]
fn vertex_buffers_come_from_the_first_stage_only() {
    let mut vertex = stage(vec![]);
    vertex.vertex_buffer_layout = vec![VertexBufferLayout {
        name: "position".to_string(),
        stride: 12,
    }];
    let mut fragment = stage(vec![]);
    fragment.vertex_buffer_layout = vec![VertexBufferLayout {
        name: "ignored".to_string(),
        stride: 99,
    }];
    let layout = PipelineLayout::from_shader_layouts(&vec![vertex, fragment]).unwrap();
    assert_eq!(layout.vertex_buffer_descriptors.len(), 1);
    assert_eq!(layout.vertex_buffer_descriptors[0].name, "position");
    assert_eq!(layout.vertex_buffer_descriptors[0].stride, 12);
}

#[test]
fn push_constant_ranges_are_concatenated_in_stage_order() {
    let mut vertex = stage(vec![]);
    vertex.push_constant_ranges = vec![PushConstantRange { stages: 1, start: 0, end: 64 }];
    let mut fragment = stage(vec![]);
    fragment.push_constant_ranges = vec![PushConstantRange { stages: 2, start: 64, end: 72 }];
    let layout = PipelineLayout::from_shader_layouts(&vec![vertex, fragment]).unwrap();
    assert_eq!(layout.push_constant_ranges.len(), 2);
    assert_eq!(layout.push_constant_ranges[0].stages, 1);
    assert_eq!(layout.push_constant_ranges[1].start, 64);
}

#[test]
fn get_bind_group_finds_by_index() {
    let layout = PipelineLayout {
        bind_groups: vec![
            BindGroupDescriptor { index: 0, bindings: vec![] },
            BindGroupDescriptor { index: 2, bindings: vec![] },
        ],
        vertex_buffer_descriptors: vec![],
        push_constant_ranges: vec![],
    };
    assert_eq!(layout.get_bind_group(2).unwrap().index, 2);
    assert!(layout.get_bind_group(1).is_none());
}

#[test]
fn uniform_property_sizes_match_their_types() {
    assert_eq!(UniformProperty::UInt.get_size(), 4);
    assert_eq!(UniformProperty::Vec3.get_size(), 12);
    assert_eq!(UniformProperty::Vec4.get_size(), 16);
    assert_eq!(UniformProperty::Mat3.get_size(), 48);
    assert_eq!(UniformProperty::Mat4.get_size(), 64);
}

#[test]
fn uniform_struct_size_is_the_sum_of_its_parts() {
    let s = UniformProperty::Struct(vec![
        UniformProperty::Vec3,
        UniformProperty::Float,
        UniformProperty::Mat4,
    ]);
    assert_eq!(s.get_size(), 12 + 4 + 64);
}

#[test]
fn uniform_array_size_is_element_size_times_length() {
    let a = UniformProperty::Array(Box::new(UniformProperty::Vec4), 3);
    assert_eq!(a.get_size(), 48);
}
