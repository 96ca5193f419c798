//! A graph node that owns one transient texture: on its first update it
//! draws a handle from the transient resource provider and publishes it
//! on its output slot; later frames republish the same handle.

use vstd::prelude::*;
use crate::resource_cache::{SamplerDescriptor, TextureCache, TextureDescriptor};
use crate::slot::{ResourceType, SlotInfo, SlotValue};

verus! {

/// A node whose single output slot carries a texture it allocates once.
#[derive(Debug)]
pub struct TextureNode {
    pub texture_descriptor: TextureDescriptor,
    pub sampler_descriptor: Option<SamplerDescriptor>,
    pub created: Option<SlotValue>,
}

impl TextureNode {
    /// The value published so far, if any.
    pub open spec fn spec_created(&self) -> Option<SlotValue> {
        self.created
    }

    /// A texture node for `texture_descriptor`, optionally with a
    /// sampler.
    pub fn new(
        texture_descriptor: TextureDescriptor,
        sampler_descriptor: Option<SamplerDescriptor>,
    ) -> (r: TextureNode)
        ensures
            r.texture_descriptor == texture_descriptor,
            r.sampler_descriptor == sampler_descriptor,
            r.spec_created() is None,
    {
        TextureNode { texture_descriptor, sampler_descriptor, created: None }
    }

    /// The node's output slots: the texture it provides.
    pub fn output(&self) -> (r: Vec<SlotInfo>)
        ensures
            r@.len() == 1,
            r@[0].name@ == "texture"@,
            r@[0].resource_type == ResourceType::Texture,
    {
        let mut r: Vec<SlotInfo> = Vec::new();
        let info = SlotInfo::new("texture".to_string(), ResourceType::Texture);
        r.push(info);
        r
    }

    /// Publishes the node's texture: allocated through the provider on
    /// the first update, the same handle afterwards.
    pub fn update(&mut self, cache: &mut TextureCache) -> (r: Vec<Option<SlotValue>>)
        requires
            old(cache).wf(),
            old(cache).spec_next_id() < u64::MAX,
        ensures
            final(cache).wf(),
            r@.len() == 1,
            r@[0] == final(self).spec_created(),
            final(self).spec_created() is Some,
            final(self).texture_descriptor == old(self).texture_descriptor,
            final(self).sampler_descriptor == old(self).sampler_descriptor,
            old(self).spec_created() is Some ==> final(self).spec_created() == old(
                self,
            ).spec_created() && *final(cache) == *old(cache),
            old(self).spec_created() is None ==> {
                &&& final(cache).has_descriptor(old(self).texture_descriptor)
                &&& final(self).spec_created() == Some(
                    SlotValue::Texture(
                        final(cache).handle_of(old(self).texture_descriptor),
                    ),
                )
            },
    {
        match self.created {
            Some(v) => {
                let mut r: Vec<Option<SlotValue>> = Vec::new();
                r.push(Some(v));
                r
            },
            None => {
                let handle = cache.get(self.texture_descriptor);
                let value = SlotValue::Texture(handle);
                self.created = Some(value);
                let mut r: Vec<Option<SlotValue>> = Vec::new();
                r.push(Some(value));
                r
            },
        }
    }
}

} // verus!
