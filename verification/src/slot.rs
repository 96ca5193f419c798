//! Typed resource slots: the named handoff points through which graph
//! nodes exchange GPU resources. A slot edge binds a producer's output
//! slot to a consumer's input slot and is type-checked at registration.

use vstd::prelude::*;

verus! {

/// Kind of resource a slot carries.
#[derive(Clone, Copy, PartialEq, Eq, Structural, Debug)]
pub enum ResourceType {
    Texture,
    Buffer,
    Sampler,
    Entity,
}

/// A named, typed slot on a node (input or output).
#[derive(Debug)]
pub struct SlotInfo {
    pub name: String,
    pub resource_type: ResourceType,
}

impl SlotInfo {
    /// A slot named `name` carrying resources of kind `resource_type`.
    pub fn new(name: String, resource_type: ResourceType) -> (r: SlotInfo)
        ensures
            r.name@ == name@,
            r.resource_type == resource_type,
    {
        SlotInfo { name, resource_type }
    }
}

/// The value a slot holds during one frame: a stable opaque handle to a
/// GPU resource, or an entity reference. Populated during execution and
/// immutable for the rest of the frame.
#[derive(Clone, Copy, PartialEq, Eq, Structural, Debug)]
pub enum SlotValue {
    Texture(u64),
    Buffer(u64),
    Sampler(u64),
    Entity(u64),
}

impl SlotValue {
    /// The kind of resource this value is.
    pub open spec fn spec_resource_type(&self) -> ResourceType {
        match self {
            SlotValue::Texture(_) => ResourceType::Texture,
            SlotValue::Buffer(_) => ResourceType::Buffer,
            SlotValue::Sampler(_) => ResourceType::Sampler,
            SlotValue::Entity(_) => ResourceType::Entity,
        }
    }

    /// The kind of resource this value is.
    pub fn resource_type(&self) -> (r: ResourceType)
        ensures
            r == self.spec_resource_type(),
    {
        match self {
            SlotValue::Texture(_) => ResourceType::Texture,
            SlotValue::Buffer(_) => ResourceType::Buffer,
            SlotValue::Sampler(_) => ResourceType::Sampler,
            SlotValue::Entity(_) => ResourceType::Entity,
        }
    }
}

} // verus!
